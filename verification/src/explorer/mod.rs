//! The explorer: the tree of files, the finder, and what keys and clicks do.
//!
//! The state and what is drawn of it stand here; the terminal itself, and what
//! has to be looked up on disk, are the caller's.

pub mod finder;
pub mod nav;
pub mod style;

use crate::detect::ComponentKind;
use crate::text;
use finder::{Finder, ItemView, ScoredView};
use nav::{Entry, EntryView, Found, FoundView, Nav, NavView, Row};
use style::{Color, Span, SpanView, Style};
use vstd::prelude::*;

verus! {

// ---------------------------------------------------------------------------
// State
// ---------------------------------------------------------------------------

/// What the status bar says when there is nothing else to say.
pub const DEFAULT_STATUS: &'static str =
    "↑/↓ move · / find files · Enter select · PgUp/PgDn logs · l save logs · q quit";

/// The state of the finder.
#[verifier::ext_equal]
pub struct FinderView {
    pub asked: Seq<char>,
    pub items: Seq<ItemView>,
    pub at: int,
}

/// What a finder finds.
pub open spec fn results_of(f: FinderView) -> Seq<ScoredView> {
    finder::search_of(f.asked, f.items)
}

/// The path of the result that the cursor is on.
pub open spec fn selected_of(f: FinderView) -> Option<Seq<char>> {
    if f.at < results_of(f).len() {
        Some(f.items[results_of(f)[f.at].index].path)
    } else {
        None
    }
}

pub open spec fn finder_view(f: Option<Finder>) -> Option<FinderView> {
    match f {
        Some(f) => Some(FinderView { asked: f.asked(), items: f.items(), at: f.at() }),
        None => None,
    }
}

/// The state of the explorer.
#[verifier::ext_equal]
pub struct AppView {
    pub nav: NavView,
    pub finder: Option<FinderView>,
    pub status: Seq<char>,
    pub root: Seq<char>,
    pub selection_file: Seq<char>,
    pub serving: bool,
    pub starting: bool,
    pub log_scroll: int,
    pub log_view_height: int,
}

/// The explorer.
pub struct TuiApp {
    nav: Nav,
    status: String,
    root: String,
    selection_file: String,
    /// Whether a server is up.
    serving: bool,
    /// Whether a server is being started; no second one is.
    starting: bool,
    /// Lines that the logs are scrolled up from the bottom (0 follows them).
    log_scroll: usize,
    /// The height of the logs as last drawn, for scrolling by pages.
    log_view_height: usize,
    /// The finder, while it is open.
    finder: Option<Finder>,
}

impl View for TuiApp {
    type V = AppView;

    closed spec fn view(&self) -> AppView {
        AppView {
            nav: self.nav@,
            finder: finder_view(self.finder),
            status: self.status@,
            root: self.root@,
            selection_file: self.selection_file@,
            serving: self.serving,
            starting: self.starting,
            log_scroll: self.log_scroll as int,
            log_view_height: self.log_view_height as int,
        }
    }
}

/// A key.
#[derive(Debug, Clone, Copy, PartialEq, Eq, Structural)]
pub enum Key {
    Esc,
    Enter,
    Up,
    Down,
    Left,
    Right,
    PageUp,
    PageDown,
    Home,
    End,
    Backspace,
    Char(char),
    Other,
}

/// What is left to do after a key.
#[derive(Debug, Clone, Copy, PartialEq, Eq, Structural)]
pub enum Step {
    /// Nothing.
    Stay,
    /// Leave.
    Quit,
    /// Look for the files under the root, and open the finder over them.
    OpenFinder,
    /// Enter on the row under the cursor.
    Activate,
    /// Open the directory under the cursor.
    Expand,
    /// Save the logs.
    SaveLogs,
}

/// What is left to do after an entry was chosen.
#[derive(Debug, Clone, Copy, PartialEq, Eq, Structural)]
pub enum Launch {
    /// Nothing.
    Nothing,
    /// Write the selection for the server that is up.
    WriteSelection,
    /// Start a server.
    Start,
}

/// The larger of two numbers.
pub open spec fn larger(a: int, b: int) -> int {
    if a > b {
        a
    } else {
        b
    }
}

/// The smaller of two numbers.
pub open spec fn smaller(a: int, b: int) -> int {
    if a < b {
        a
    } else {
        b
    }
}

// ---------------------------------------------------------------------------
// Keys
// ---------------------------------------------------------------------------

/// What is left to do after a key, while the finder is closed.
pub open spec fn step_of(key: Key) -> Step {
    match key {
        Key::Char(c) => if c == 'q' || c == 'Q' {
            Step::Quit
        } else if c == '/' {
            Step::OpenFinder
        } else if c == 'l' || c == 'L' {
            Step::SaveLogs
        } else {
            Step::Stay
        },
        Key::Enter => Step::Activate,
        Key::Right => Step::Expand,
        _ => Step::Stay,
    }
}

/// The tree with the cursor one row down, where there is one.
pub open spec fn moved_down(v: NavView) -> NavView {
    if v.cursor + 1 < nav::visible(v).len() {
        NavView { cursor: v.cursor + 1, ..v }
    } else {
        v
    }
}

/// The tree with the cursor one row up, where there is one.
pub open spec fn moved_up(v: NavView) -> NavView {
    if v.cursor > 0 {
        NavView { cursor: (v.cursor - 1) as nat, ..v }
    } else {
        v
    }
}

/// The state after a key, while the finder is closed.
pub open spec fn keyed(v: AppView, key: Key) -> AppView {
    let page = larger(v.log_view_height - 1, 0);
    match key {
        Key::Char(c) => if c == 'j' {
            AppView { nav: moved_down(v.nav), ..v }
        } else if c == 'k' {
            AppView { nav: moved_up(v.nav), ..v }
        } else {
            v
        },
        Key::Down => AppView { nav: moved_down(v.nav), ..v },
        Key::Up => AppView { nav: moved_up(v.nav), ..v },
        Key::Left => AppView { nav: nav::collapsed(v.nav), ..v },
        Key::PageUp => AppView { log_scroll: smaller(v.log_scroll + page, usize::MAX as int), ..v },
        Key::PageDown => AppView { log_scroll: larger(v.log_scroll - page, 0), ..v },
        Key::Home => AppView { log_scroll: usize::MAX as int, ..v },
        Key::End => AppView { log_scroll: 0, ..v },
        _ => v,
    }
}

/// The state once the finder is closed.
pub open spec fn finder_closed(v: AppView) -> AppView {
    AppView { finder: None, status: DEFAULT_STATUS@, ..v }
}

/// What a key does to the query and the cursor of the finder.
pub open spec fn searched(f: FinderView, key: Key, ctrl: bool) -> FinderView {
    let down = FinderView {
        at: if f.at + 1 < results_of(f).len() {
            f.at + 1
        } else {
            f.at
        },
        ..f
    };
    let up = FinderView { at: larger(f.at - 1, 0), ..f };
    match key {
        Key::Down => down,
        Key::Up => up,
        Key::Backspace => FinderView {
            asked: if f.asked.len() > 0 {
                f.asked.drop_last()
            } else {
                f.asked
            },
            at: 0,
            ..f
        },
        Key::Char(c) => if ctrl && c == 'n' {
            down
        } else if ctrl && c == 'p' {
            up
        } else if ctrl && c == 'u' {
            FinderView { asked: Seq::empty(), at: 0, ..f }
        } else {
            FinderView { asked: f.asked.push(c), at: 0, ..f }
        },
        _ => f,
    }
}

/// Whether a key closes the finder without a choice.
pub open spec fn cancels(key: Key, ctrl: bool) -> bool {
    key is Esc || (key == Key::Char('c') && ctrl)
}

/// The state after a key, while the finder is open; keys do nothing else then.
pub open spec fn finder_keyed(v: AppView, key: Key, ctrl: bool) -> AppView {
    match v.finder {
        Some(f) => if cancels(key, ctrl) {
            finder_closed(v)
        } else if key is Enter {
            if selected_of(f) is Some {
                finder_closed(v)
            } else {
                v
            }
        } else {
            AppView { finder: Some(searched(f, key, ctrl)), ..v }
        },
        None => if cancels(key, ctrl) {
            finder_closed(v)
        } else {
            v
        },
    }
}

/// The file that a key chooses in the finder.
pub open spec fn finder_choice(v: AppView, key: Key, ctrl: bool) -> Option<Seq<char>> {
    match v.finder {
        Some(f) => if key is Enter {
            selected_of(f)
        } else {
            None
        },
        None => None,
    }
}

// ---------------------------------------------------------------------------
// Choosing
// ---------------------------------------------------------------------------

/// What is left to do once an entry of this kind was chosen, `valid` telling
/// whether it is a component that can be served.
pub open spec fn launch_of(v: AppView, kind: ComponentKind, valid: bool) -> Launch {
    if !kind.is_renderable() || !valid {
        Launch::Nothing
    } else if v.serving {
        Launch::WriteSelection
    } else if v.starting {
        Launch::Nothing
    } else {
        Launch::Start
    }
}

/// What the status bar says once an entry was chosen.
pub open spec fn choice_status(
    v: AppView,
    name: Seq<char>,
    kind: ComponentKind,
    valid: Result<(), Seq<char>>,
) -> Seq<char> {
    if !kind.is_highlighted() {
        "not a renderable file"@
    } else if kind.is_renderable() {
        match valid {
            Ok(_) => if v.serving {
                "switched to "@ + name + " (hot-swap)"@
            } else if v.starting {
                "already starting — watch the logs panel..."@
            } else {
                "starting Angular host — watch the logs panel..."@
            },
            Err(e) => "invalid component: "@ + e,
        }
    } else {
        match kind.refusal() {
            Some(m) => m,
            None => v.status,
        }
    }
}

pub open spec fn checked(r: Result<(), String>) -> Result<(), Seq<char>> {
    match r {
        Ok(_) => Ok(()),
        Err(e) => Err(e@),
    }
}

/// The state once an entry was chosen.
pub open spec fn chosen(
    v: AppView,
    name: Seq<char>,
    kind: ComponentKind,
    valid: Result<(), Seq<char>>,
) -> AppView {
    AppView {
        status: choice_status(v, name, kind, valid),
        starting: v.starting || launch_of(v, kind, valid is Ok) is Start,
        ..v
    }
}

// ---------------------------------------------------------------------------
// Drawing
// ---------------------------------------------------------------------------

/// The icon of a row and its colour: folders have their own, files the icon and
/// the colour that are given for them, white where the colour cannot be read.
pub open spec fn icon_of(
    is_dir: bool,
    is_open: bool,
    icon: char,
    color: Seq<char>,
) -> (char, Color) {
    if is_dir {
        (
            if is_open {
                '\u{f07c}'
            } else {
                '\u{f07b}'
            },
            Color::Rgb(0x6C, 0x99, 0xD9),
        )
    } else {
        (
            icon,
            match style::hex_color(color) {
                Some(c) => c,
                None => Color::White,
            },
        )
    }
}

/// What a row says: a directory with an arrow and a slash, a file by its name.
pub open spec fn label_of(row: nav::RowView) -> Seq<char> {
    if row.entry.is_dir {
        if row.expanded {
            "▾ "@ + row.entry.name + "/"@
        } else {
            "▸ "@ + row.entry.name + "/"@
        }
    } else {
        row.entry.name
    }
}

/// Two blanks for each level.
pub open spec fn indent(depth: nat) -> Seq<char>
    decreases depth,
{
    if depth == 0 {
        Seq::empty()
    } else {
        indent((depth - 1) as nat) + "  "@
    }
}

/// The pieces of a row.
pub open spec fn row_spans(row: nav::RowView, icon: (char, Color)) -> Seq<SpanView> {
    seq![
        SpanView { content: indent(row.depth), style: style::plain() },
        SpanView { content: seq![icon.0] + " "@, style: style::colored(icon.1) },
        SpanView { content: label_of(row), style: label_style(row) },
    ]
}

/// The style of a row's label: that of its kind, and bold for a directory.
pub open spec fn label_style(row: nav::RowView) -> Style {
    if row.entry.is_dir {
        Style { bold: true, ..style::kind_style(row.entry.kind) }
    } else {
        style::kind_style(row.entry.kind)
    }
}

/// The style of a log line, `lower` being the line in lower case: errors are
/// red.
pub open spec fn log_style(line: Seq<char>, lower: Seq<char>) -> Style {
    if text::has(lower, "error"@) || text::has(lower, "failed"@) || text::has(line, "ERR!"@) {
        style::colored(Color::Red)
    } else {
        style::colored(Color::DarkGray)
    }
}

/// The style of the status bar: what went wrong is red.
pub open spec fn status_style_of(status: Seq<char>) -> Style {
    if text::starts(status, "error"@) || text::has(status, "not supported"@) || text::has(
        status,
        "invalid"@,
    ) {
        style::colored(Color::Red)
    } else {
        style::colored(Color::Green)
    }
}

/// How many of `total` lines the view of `height` lines is scrolled up: no
/// further than to the first line.
pub open spec fn scroll_of(total: int, height: int, log_scroll: int) -> int {
    smaller(log_scroll, larger(total - height, 0))
}

/// The first line that is shown.
pub open spec fn log_start(total: int, height: int, log_scroll: int) -> int {
    larger(total - (height + scroll_of(total, height, log_scroll)), 0)
}

/// The title of the logs.
pub open spec fn log_title(scroll: nat) -> Seq<char> {
    if scroll > 0 {
        " logs — "@ + text::decimal(scroll) + " lines up (PgDn to follow) "@
    } else {
        " logs (PgUp/PgDn scroll · l saves full log) "@
    }
}

/// What is shown of the logs: the lines from `start` to before `end`.
#[derive(Debug)]
pub struct LogPanel {
    pub start: usize,
    pub end: usize,
    pub title: String,
}

/// A rectangle of the screen.
#[derive(Debug, Clone, Copy, PartialEq, Eq, Structural)]
pub struct Area {
    pub x: u16,
    pub y: u16,
    pub width: u16,
    pub height: u16,
}

/// Whether the popup of the finder has room.
pub open spec fn has_room(area: Area) -> bool {
    &&& 32 <= area.width <= 1092
    &&& 8 <= area.height <= 1638
    &&& area.x + area.width <= u16::MAX
    &&& area.y + area.height <= u16::MAX
}

/// Where the popup of the finder is: three fifths of the width and two fifths of
/// the height, in the middle and a little above it.
pub open spec fn popup_of(area: Area) -> Area {
    let width = smaller(larger(area.width * 60 / 100, 30), area.width - 2);
    let height = smaller(larger(area.height * 40 / 100, 6), area.height - 2);
    Area {
        x: (area.x + (area.width - width) / 2) as u16,
        y: (area.y + (area.height - height) / 3) as u16,
        width: width as u16,
        height: height as u16,
    }
}

/// The first result that is shown where `room` of them are: the cursor stays in
/// view.
pub open spec fn first_shown(at: int, room: int) -> int {
    larger(at - (room - 1), 0)
}

/// Whether the popup of the finder has room.
pub fn popup_fits(area: Area) -> (r: bool)
    ensures
        r == has_room(area),
{
    32 <= area.width && area.width <= 1092 && 8 <= area.height && area.height <= 1638 && area.width
        <= u16::MAX - area.x && area.height <= u16::MAX - area.y
}

/// Where the popup of the finder is.
pub fn popup(area: Area) -> (r: Area)
    requires
        has_room(area),
    ensures
        r == popup_of(area),
{
    let wide: u16 = area.width * 60 / 100;
    let width: u16 = if wide < 30 {
        30
    } else {
        wide
    };
    let width: u16 = if width > area.width - 2 {
        area.width - 2
    } else {
        width
    };
    let high: u16 = area.height * 40 / 100;
    let height: u16 = if high < 6 {
        6
    } else {
        high
    };
    let height: u16 = if height > area.height - 2 {
        area.height - 2
    } else {
        height
    };
    Area {
        x: area.x + (area.width - width) / 2,
        y: area.y + (area.height - height) / 3,
        width,
        height,
    }
}

/// The column of the terminal cursor: behind the prompt and the query, as far as
/// there is room. Query lengths count as far as sixteen bits do.
pub open spec fn prompt_column_of(inner: Area, typed: int) -> int {
    smaller(inner.x + 2 + typed % 65536, inner.x + inner.width - 1)
}

/// The column of the terminal cursor.
pub fn prompt_column(inner: Area, query: &str) -> (r: u16)
    requires
        1 <= inner.width,
        inner.x + inner.width <= u16::MAX,
        inner.x + 2 + query@.len() % 65536 <= u16::MAX,
    ensures
        r == prompt_column_of(inner, query@.len() as int),
{
    let chars: Vec<char> = text::chars_of(query);
    let typed: u16 = (chars.len() % 65536) as u16;
    let column: u16 = inner.x + 2 + typed;
    let last: u16 = inner.x + inner.width - 1;
    if column < last {
        column
    } else {
        last
    }
}

/// The popup lies within the screen.
pub proof fn popup_lies_within(area: Area)
    requires
        has_room(area),
    ensures
        ({
            let p = popup_of(area);
            &&& area.x <= p.x && p.x + p.width <= area.x + area.width
            &&& area.y <= p.y && p.y + p.height <= area.y + area.height
            &&& p.width >= 30 && p.height >= 6
        }),
{
}

/// The icon of a row and its colour, `icon` and `color` being those of its file
/// type.
pub fn icon_and_color_for(row: &Row, icon: char, color: &str) -> (r: (char, Color))
    ensures
        r == icon_of(row.entry.is_dir, row.expanded, icon, color@),
{
    if row.entry.is_dir {
        let glyph: char = if row.expanded {
            '\u{f07c}'
        } else {
            '\u{f07b}'
        };
        return (glyph, Color::Rgb(0x6C, 0x99, 0xD9));
    }
    match style::parse_hex(color) {
        Some(c) => (icon, c),
        None => (icon, Color::White),
    }
}

fn indentation(depth: usize) -> (r: String)
    ensures
        r@ == indent(depth as nat),
{
    let mut out: String = String::new();
    let mut i: usize = 0;
    assert(out@ =~= indent(0));
    while i < depth
        invariant
            i <= depth,
            out@ == indent(i as nat),
        decreases depth - i,
    {
        out = text::cat(out.as_str(), "  ");
        i = i + 1;
    }
    out
}

/// The pieces of a row.
pub fn list_item(row: &Row, icon: char, color: Color) -> (r: Vec<Span>)
    ensures
        style::spans_view(r@) == row_spans(row@, (icon, color)),
{
    let label: String = if row.entry.is_dir {
        if row.expanded {
            text::cat3("▾ ", row.entry.name.as_str(), "/")
        } else {
            text::cat3("▸ ", row.entry.name.as_str(), "/")
        }
    } else {
        row.entry.name.clone()
    };
    let mut glyph: String = String::new();
    glyph.push(icon);
    assert(glyph@ =~= seq![icon]);
    let glyph: String = text::cat(glyph.as_str(), " ");
    let mut out: Vec<Span> = Vec::new();
    out.push(
        Span {
            content: indentation(row.depth),
            style: Style { fg: None, bg: None, bold: false },
        },
    );
    out.push(Span { content: glyph, style: Style { fg: Some(color), bg: None, bold: false } });
    let mut look: Style = style::style_for_kind(row.entry.kind);
    if row.entry.is_dir {
        look.bold = true;
    }
    out.push(Span { content: label, style: look });
    assert(style::spans_view(out@) =~= row_spans(row@, (icon, color)));
    out
}

/// The style of a log line whose form in lower case is given.
pub fn log_style_for(line: &str, lowered: &str) -> (r: Style)
    ensures
        r == log_style(line@, lowered@),
{
    let l: Vec<char> = text::chars_of(line);
    let lower: Vec<char> = text::chars_of(lowered);
    if text::contains(lower.as_slice(), "error") || text::contains(lower.as_slice(), "failed")
        || text::contains(l.as_slice(), "ERR!") {
        Style { fg: Some(Color::Red), bg: None, bold: false }
    } else {
        Style { fg: Some(Color::DarkGray), bg: None, bold: false }
    }
}

/// The style of a log line.
pub fn log_line_style(line: &str) -> (r: Style)
    ensures
        r == log_style(line@, text::lowercase(line@)),
{
    log_style_for(line, line.to_lowercase().as_str())
}

/// While the logs are followed, the last lines are shown; scrolled all the way
/// up, the first ones are; and a full view is shown wherever there are enough
/// lines.
pub proof fn log_view_is_full(total: int, height: int, log_scroll: int)
    requires
        0 <= height <= total,
        0 <= log_scroll,
    ensures
        0 <= log_start(total, height, log_scroll),
        log_start(total, height, log_scroll) + height <= total,
        log_scroll == 0 ==> log_start(total, height, log_scroll) + height == total,
        log_scroll >= total - height ==> log_start(total, height, log_scroll) == 0,
{
}

/// The cursor of the finder is among the results that are shown.
pub proof fn cursor_is_shown(at: int, room: int)
    requires
        0 <= at,
        1 <= room,
    ensures
        first_shown(at, room) <= at < first_shown(at, room) + room,
{
}

// ---------------------------------------------------------------------------
// The explorer
// ---------------------------------------------------------------------------

impl TuiApp {
    /// The tree and the finder are in order.
    pub closed spec fn wf(&self) -> bool {
        &&& self.nav.wf()
        &&& self.finder matches Some(f) ==> f.wf()
    }

    /// Open the explorer at a directory, `found` being what was found in it.
    pub fn new(root: String, selection_file: String, found: Vec<Found>) -> (r: TuiApp)
        ensures
            r.wf(),
            r@ == (AppView {
                nav: nav::opened(root@, nav::found_view(found@)),
                finder: None,
                status: DEFAULT_STATUS@,
                root: root@,
                selection_file: selection_file@,
                serving: false,
                starting: false,
                log_scroll: 0,
                log_view_height: 10,
            }),
    {
        TuiApp {
            nav: Nav::open(root.clone(), found),
            status: DEFAULT_STATUS.to_string(),
            root,
            selection_file,
            serving: false,
            starting: false,
            log_scroll: 0,
            log_view_height: 10,
            finder: None,
        }
    }

    /// The tree.
    pub fn tree(&self) -> (r: &Nav)
        requires
            self.wf(),
        ensures
            r@ == self@.nav,
            r.wf(),
    {
        &self.nav
    }

    /// What the status bar says.
    pub fn status(&self) -> (r: &str)
        ensures
            r@ == self@.status,
    {
        self.status.as_str()
    }

    /// The root of the project.
    pub fn root_label(&self) -> (r: String)
        ensures
            r@ == self@.root,
    {
        self.root.clone()
    }

    /// Where the selection is written.
    pub fn selection_file(&self) -> (r: &str)
        ensures
            r@ == self@.selection_file,
    {
        self.selection_file.as_str()
    }

    /// Whether the finder is open.
    pub fn finding(&self) -> (r: bool)
        ensures
            r == (self@.finder is Some),
    {
        self.finder.is_some()
    }

    /// The query of the finder.
    pub fn query(&self) -> (r: Option<&str>)
        ensures
            text::opt_str(r) == (match self@.finder {
                Some(f) => Some(f.asked),
                None => None,
            }),
    {
        match &self.finder {
            Some(f) => Some(f.asked_text()),
            None => None,
        }
    }

    /// Open the finder over the files that were found under the root.
    pub fn open_finder(&mut self, files: &Vec<String>)
        requires
            old(self).wf(),
        ensures
            final(self).wf(),
            final(self)@ == (AppView {
                finder: Some(
                    FinderView {
                        asked: Seq::empty(),
                        items: finder::index_of(old(self)@.root, text::texts(files@)),
                        at: 0,
                    },
                ),
                ..old(self)@
            }),
    {
        self.finder = Some(Finder::open(self.root.as_str(), files));
    }

    /// Handle a key while the finder is closed.
    pub fn key(&mut self, key: Key) -> (r: Step)
        requires
            old(self).wf(),
        ensures
            final(self).wf(),
            final(self)@ == keyed(old(self)@, key),
            r == step_of(key),
    {
        let page: usize = if self.log_view_height > 0 {
            self.log_view_height - 1
        } else {
            0
        };
        match key {
            Key::Char(c) => {
                if c == 'q' || c == 'Q' {
                    return Step::Quit;
                } else if c == '/' {
                    return Step::OpenFinder;
                } else if c == 'l' || c == 'L' {
                    return Step::SaveLogs;
                } else if c == 'j' {
                    self.nav.move_down();
                } else if c == 'k' {
                    self.nav.move_up();
                }
                Step::Stay
            },
            Key::Enter => Step::Activate,
            Key::Right => Step::Expand,
            Key::Down => {
                self.nav.move_down();
                Step::Stay
            },
            Key::Up => {
                self.nav.move_up();
                Step::Stay
            },
            Key::Left => {
                self.nav.collapse_or_parent();
                Step::Stay
            },
            Key::PageUp => {
                self.log_scroll = if page > usize::MAX - self.log_scroll {
                    usize::MAX
                } else {
                    self.log_scroll + page
                };
                Step::Stay
            },
            Key::PageDown => {
                self.log_scroll = if page > self.log_scroll {
                    0
                } else {
                    self.log_scroll - page
                };
                Step::Stay
            },
            Key::Home => {
                self.log_scroll = usize::MAX;
                Step::Stay
            },
            Key::End => {
                self.log_scroll = 0;
                Step::Stay
            },
            _ => Step::Stay,
        }
    }

    fn close_finder(&mut self)
        requires
            old(self).wf(),
        ensures
            final(self).wf(),
            final(self)@ == finder_closed(old(self)@),
    {
        self.finder = None;
        self.status = DEFAULT_STATUS.to_string();
    }

    /// Handle a key while the finder is open: edit the query, move among the
    /// results, choose one or close the finder. The chosen file is handed back.
    pub fn finder_key(&mut self, key: Key, ctrl: bool) -> (r: Option<String>)
        requires
            old(self).wf(),
            old(self)@.finder matches Some(f) ==> f.asked.len() < finder::MAX_QUERY,
        ensures
            final(self).wf(),
            final(self)@ == finder_keyed(old(self)@, key, ctrl),
            text::opt(r) == finder_choice(old(self)@, key, ctrl),
    {
        let cancel: bool = match key {
            Key::Esc => true,
            Key::Char(c) => c == 'c' && ctrl,
            _ => false,
        };
        if cancel {
            self.close_finder();
            return None;
        }
        let chosen: Option<String> = match &self.finder {
            Some(f) => {
                proof {
                    f.results_are_current();
                }
                match key {
                    Key::Enter => match f.selected_path() {
                        Some(p) => Some(p.to_string()),
                        None => None,
                    },
                    _ => None,
                }
            },
            None => None,
        };
        if chosen.is_some() {
            self.close_finder();
            return chosen;
        }
        let finder: Option<Finder> = self.finder.take();
        match finder {
            Some(f) => {
                let mut f: Finder = f;
                proof {
                    f.results_are_current();
                }
                match key {
                    Key::Down => {
                        f.move_down();
                    },
                    Key::Up => {
                        f.move_up();
                    },
                    Key::Backspace => {
                        f.pop();
                    },
                    Key::Char(c) => {
                        if ctrl && c == 'n' {
                            f.move_down();
                        } else if ctrl && c == 'p' {
                            f.move_up();
                        } else if ctrl && c == 'u' {
                            f.clear();
                        } else {
                            f.push(c);
                        }
                    },
                    _ => {},
                }
                self.finder = Some(f);
            },
            None => {},
        }
        None
    }

    /// The directory whose content `enter` and `expand` need.
    pub fn wanted(&self) -> (r: Option<String>)
        requires
            self.wf(),
        ensures
            text::opt(r) == nav::wanted_dir(self@.nav),
    {
        self.nav.wanted()
    }

    /// Enter on the row under the cursor: a directory opens or closes in place,
    /// a file is handed back.
    pub fn enter(&mut self, found: Vec<Found>) -> (r: Option<Entry>)
        requires
            old(self).wf(),
        ensures
            final(self).wf(),
            final(self)@ == (AppView {
                nav: nav::toggled(old(self)@.nav, nav::found_view(found@)),
                ..old(self)@
            }),
            match r {
                Some(e) => nav::chosen(old(self)@.nav) == Some(e@),
                None => nav::chosen(old(self)@.nav) is None,
            },
    {
        self.nav.toggle(found)
    }

    /// Open the directory under the cursor.
    pub fn expand(&mut self, found: Vec<Found>)
        requires
            old(self).wf(),
        ensures
            final(self).wf(),
            final(self)@ == (AppView {
                nav: nav::expanded(old(self)@.nav, nav::found_view(found@)),
                ..old(self)@
            }),
    {
        self.nav.expand(found);
    }

    /// A click on a row of the screen, `offset` being the first row of the tree
    /// that is shown: the cursor goes to the row of the tree that is there. The
    /// first two rows of the screen are the header and a border.
    pub fn click(&mut self, row: u16, offset: usize)
        requires
            old(self).wf(),
        ensures
            final(self).wf(),
            final(self)@ == (if row >= 2 && row - 2 + offset < nav::visible(old(self)@.nav).len() {
                AppView {
                    nav: NavView { cursor: (row - 2 + offset) as nat, ..old(self)@.nav },
                    ..old(self)@
                }
            } else {
                old(self)@
            }),
    {
        if row >= 2 {
            let line: usize = (row - 2) as usize;
            let count: usize = self.nav.rows().len();
            if offset < count && line < count - offset {
                self.nav.set_cursor(line + offset);
            }
        }
    }

    /// An entry was chosen: components are served, or shown by the server that
    /// is up; other frameworks get their message; everything else is inert.
    /// `valid` is the outcome of the validation of a component.
    pub fn activate_entry(
        &mut self,
        name: &str,
        kind: ComponentKind,
        valid: Result<(), String>,
    ) -> (r: Launch)
        requires
            old(self).wf(),
        ensures
            final(self).wf(),
            final(self)@ == chosen(old(self)@, name@, kind, checked(valid)),
            r == launch_of(old(self)@, kind, valid is Ok),
    {
        if !kind.highlighted() {
            self.status = "not a renderable file".to_string();
            return Launch::Nothing;
        }
        if kind.renderable() {
            match valid {
                Ok(_) => {
                    if self.serving {
                        self.status = text::cat3("switched to ", name, " (hot-swap)");
                        Launch::WriteSelection
                    } else if self.starting {
                        self.status = "already starting — watch the logs panel...".to_string();
                        Launch::Nothing
                    } else {
                        self.starting = true;
                        self.status = "starting Angular host — watch the logs panel...".to_string();
                        Launch::Start
                    }
                },
                Err(e) => {
                    self.status = text::cat("invalid component: ", e.as_str());
                    Launch::Nothing
                },
            }
        } else {
            match kind.unsupported_message() {
                Some(m) => {
                    self.status = m.to_string();
                },
                None => {},
            }
            Launch::Nothing
        }
    }

    /// The start of a server is over: it is up at an address, or failed. The
    /// line to log is handed back.
    pub fn start_finished(&mut self, result: Result<String, String>) -> (r: Option<String>)
        requires
            old(self).wf(),
        ensures
            final(self).wf(),
            match result {
                Ok(url) => r is None && final(self)@ == (AppView {
                    starting: false,
                    serving: true,
                    status: "serving at "@ + url@ + " — select another component to hot-swap"@,
                    ..old(self)@
                }),
                Err(e) => text::opt(r) == Some("[tui] startup failed: "@ + e@) && final(self)@ == (
                AppView { starting: false, status: "error starting server: "@ + e@, ..old(self)@ }),
            },
    {
        self.starting = false;
        match result {
            Ok(url) => {
                self.status = text::cat3(
                    "serving at ",
                    url.as_str(),
                    " — select another component to hot-swap",
                );
                self.serving = true;
                None
            },
            Err(e) => {
                self.status = text::cat("error starting server: ", e.as_str());
                Some(text::cat("[tui] startup failed: ", e.as_str()))
            },
        }
    }

    /// The logs were saved, so many lines of them, or could not be. The line to
    /// log is handed back.
    pub fn logs_saved(&mut self, path: &str, result: Result<u64, String>) -> (r: Option<String>)
        requires
            old(self).wf(),
        ensures
            final(self).wf(),
            match result {
                Ok(n) => text::opt(r) == Some(
                    "[tui] dumped "@ + text::decimal(n as nat) + " log lines to "@ + path@,
                ) && final(self)@ == (AppView {
                    status: "logs saved: "@ + path@ + " ("@ + text::decimal(n as nat) + " lines)"@,
                    ..old(self)@
                }),
                Err(e) => r is None && final(self)@ == (AppView {
                    status: "error saving logs: "@ + e@,
                    ..old(self)@
                }),
            },
    {
        match result {
            Ok(n) => {
                let count: String = text::number_text(n);
                self.status = text::cat5("logs saved: ", path, " (", count.as_str(), " lines)");
                let head: String = text::cat3("[tui] dumped ", count.as_str(), " log lines to ");
                Some(text::cat(head.as_str(), path))
            },
            Err(e) => {
                self.status = text::cat("error saving logs: ", e.as_str());
                None
            },
        }
    }

    /// What is shown of `total` log lines in a panel of the given height, two
    /// rows of which are its border.
    pub fn log_panel(&mut self, panel_height: u16, total: usize) -> (r: LogPanel)
        requires
            old(self).wf(),
        ensures
            final(self).wf(),
            ({
                let height = larger(panel_height - 2, 0);
                &&& final(self)@ == (AppView { log_view_height: larger(height, 1), ..old(self)@ })
                &&& r.start == log_start(total as int, height, old(self)@.log_scroll)
                &&& r.end == r.start + height
                &&& r.title@ == log_title(
                    scroll_of(total as int, height, old(self)@.log_scroll) as nat,
                )
            }),
    {
        let height: usize = if panel_height > 2 {
            (panel_height - 2) as usize
        } else {
            0
        };
        self.log_view_height = if height > 1 {
            height
        } else {
            1
        };
        let most: usize = if total > height {
            total - height
        } else {
            0
        };
        let scroll: usize = if self.log_scroll < most {
            self.log_scroll
        } else {
            most
        };
        let start: usize = if total > height && total - height > scroll {
            total - height - scroll
        } else {
            0
        };
        let title: String = if scroll > 0 {
            let lines: String = text::number_text(scroll as u64);
            text::cat3(" logs — ", lines.as_str(), " lines up (PgDn to follow) ")
        } else {
            " logs (PgUp/PgDn scroll · l saves full log) ".to_string()
        };
        LogPanel { start, end: start + height, title }
    }

    /// The style of the status bar.
    pub fn status_style(&self) -> (r: Style)
        ensures
            r == status_style_of(self@.status),
    {
        let s: Vec<char> = text::chars_of(self.status.as_str());
        if text::starts_with(s.as_slice(), "error") || text::contains(s.as_slice(), "not supported")
            || text::contains(s.as_slice(), "invalid") {
            Style { fg: Some(Color::Red), bg: None, bold: false }
        } else {
            Style { fg: Some(Color::Green), bg: None, bold: false }
        }
    }

    /// The rows of the finder where there is room for `room` of them.
    pub fn finder_rows(&self, room: usize) -> (r: Vec<Vec<Span>>)
        requires
            self.wf(),
            room >= 1,
        ensures
            lines_view(r@) == (match self@.finder {
                Some(f) => shown_results(f, room as int),
                None => Seq::empty(),
            }),
    {
        let mut out: Vec<Vec<Span>> = Vec::new();
        assert(lines_view(out@) =~= Seq::<Seq<SpanView>>::empty());
        match &self.finder {
            Some(f) => {
                let ghost view = self@.finder->0;
                proof {
                    f.results_are_current();
                }
                let at: usize = f.cursor();
                let offset: usize = if at > room - 1 {
                    at - (room - 1)
                } else {
                    0
                };
                let count: usize = f.result_count();
                let mut n: usize = 0;
                while n < room && offset <= count && n < count - offset
                    invariant
                        n <= room,
                        f.wf(),
                        view == (FinderView { asked: f.asked(), items: f.items(), at: f.at() }),
                        results_of(view) == f.found(),
                        at == view.at,
                        count == results_of(view).len(),
                        offset == first_shown(view.at, room as int),
                        offset <= count ==> offset + n <= count,
                        offset > count ==> n == 0,
                        out@.len() == n,
                        forall|k: int|
                            0 <= k < n ==> style::spans_view((#[trigger] out@[k])@) == result_row(
                                view,
                                offset + k,
                            ),
                    decreases room - n,
                {
                    proof {
                        f.results_are_current();
                    }
                    let one: &finder::Scored = f.result_at(offset + n);
                    let selected: bool = offset + n == at;
                    out.push(
                        finder::result_line(
                            f.item_display(one.index),
                            one.indices.as_slice(),
                            selected,
                        ),
                    );
                    n = n + 1;
                }
                assert(lines_view(out@) =~= shown_results(view, room as int));
            },
            None => {},
        }
        out
    }
}

pub open spec fn lines_view(v: Seq<Vec<Span>>) -> Seq<Seq<SpanView>> {
    v.map_values(|l: Vec<Span>| style::spans_view(l@))
}

/// The row of the `k`-th result.
pub open spec fn result_row(f: FinderView, k: int) -> Seq<SpanView> {
    let one = results_of(f)[k];
    finder::line_from(f.items[one.index].display, one.indices, k == f.at, 0)
}

/// The rows that are shown where there is room for `room` of them.
pub open spec fn shown_results(f: FinderView, room: int) -> Seq<Seq<SpanView>> {
    let offset = first_shown(f.at, room);
    let count = smaller(room, larger(results_of(f).len() - offset, 0));
    Seq::new(count as nat, |n: int| result_row(f, offset + n))
}

// ---------------------------------------------------------------------------
// Laws
// ---------------------------------------------------------------------------

/// A file that is not highlighted is inert: choosing it starts nothing, writes
/// nothing, and changes the status bar only.
pub proof fn plain_files_are_inert(
    v: AppView,
    name: Seq<char>,
    kind: ComponentKind,
    valid: Result<(), Seq<char>>,
)
    requires
        !kind.is_renderable(),
    ensures
        launch_of(v, kind, valid is Ok) is Nothing,
        chosen(v, name, kind, valid) == (AppView {
            status: choice_status(v, name, kind, valid),
            ..v
        }),
{
}

/// What cannot be rendered is refused in so many words.
pub proof fn unsupported_kinds_are_refused(
    v: AppView,
    name: Seq<char>,
    kind: ComponentKind,
    valid: Result<(), Seq<char>>,
)
    requires
        kind.is_highlighted(),
        !kind.is_renderable(),
    ensures
        kind.refusal() == Some(chosen(v, name, kind, valid).status),
{
}

/// While a server is being started, no second one is.
pub proof fn no_second_start(
    v: AppView,
    name: Seq<char>,
    kind: ComponentKind,
    valid: Result<(), Seq<char>>,
)
    requires
        v.starting || v.serving,
    ensures
        !(launch_of(v, kind, valid is Ok) is Start),
        chosen(v, name, kind, valid).starting == v.starting,
{
}

/// With a server up, choosing a valid component replaces the view: it is shown
/// by that server.
pub proof fn serving_means_hot_swap(v: AppView, kind: ComponentKind)
    requires
        v.serving,
        kind.is_renderable(),
    ensures
        launch_of(v, kind, true) is WriteSelection,
        launch_of(v, kind, false) is Nothing,
{
}

/// While the finder is open, keys change nothing but the finder and the status
/// bar.
pub proof fn finder_takes_all_keys(v: AppView, key: Key, ctrl: bool)
    ensures
        finder_keyed(v, key, ctrl) == (AppView {
            finder: finder_keyed(v, key, ctrl).finder,
            status: finder_keyed(v, key, ctrl).status,
            ..v
        }),
{
}

/// Moving down and up again comes back, and moves by one row where there is one;
/// the letters move like the arrows.
pub proof fn moving_up_undoes_moving_down(v: AppView)
    ensures
        v.nav.cursor + 1 < nav::visible(v.nav).len() ==> keyed(v, Key::Down).nav.cursor
            == v.nav.cursor + 1 && keyed(keyed(v, Key::Down), Key::Up) == v,
        v.nav.cursor + 1 >= nav::visible(v.nav).len() ==> keyed(v, Key::Down) == v,
        v.nav.cursor > 0 ==> keyed(v, Key::Up).nav.cursor == v.nav.cursor - 1,
        v.nav.cursor == 0 ==> keyed(v, Key::Up) == v,
        keyed(v, Key::Char('j')) == keyed(v, Key::Down),
        keyed(v, Key::Char('k')) == keyed(v, Key::Up),
{
    let down = keyed(v, Key::Down);
    assert(keyed(down, Key::Up) =~= v || v.nav.cursor + 1 >= nav::visible(v.nav).len()) by {
        if v.nav.cursor + 1 < nav::visible(v.nav).len() {
            assert(moved_up(moved_down(v.nav)) =~= v.nav);
        }
    }
}

/// Scrolling the log a page up and a page down again comes back; a page is one line
/// less than the view. End follows the log again, Home goes as far up as can be.
pub proof fn paging_down_undoes_paging_up(v: AppView)
    requires
        0 <= v.log_scroll,
        0 <= v.log_view_height,
        v.log_scroll + v.log_view_height <= usize::MAX,
    ensures
        v.log_view_height >= 1 ==> keyed(v, Key::PageUp).log_scroll == v.log_scroll
            + v.log_view_height - 1,
        keyed(keyed(v, Key::PageUp), Key::PageDown).log_scroll == v.log_scroll,
        keyed(v, Key::End).log_scroll == 0,
        keyed(v, Key::Home).log_scroll >= keyed(v, Key::PageUp).log_scroll,
        keyed(v, Key::PageUp).nav == v.nav,
        keyed(v, Key::PageDown).nav == v.nav,
{
}

/// Typing adds to the query and Backspace takes it off again; with Control `u`
/// empties it, and `n` and `p` move like the arrows.
pub proof fn typing_is_undone_by_backspace(v: AppView, f: FinderView, c: char)
    requires
        v.finder == Some(f),
    ensures
        finder_keyed(v, Key::Char(c), false).finder matches Some(g) && g.asked == f.asked.push(c)
            && g.items == f.items && g.at == 0,
        finder_keyed(finder_keyed(v, Key::Char(c), false), Key::Backspace, false).finder matches Some(
            g,
        ) && g.asked == f.asked && results_of(g) == results_of(f),
        finder_keyed(v, Key::Char('u'), true).finder matches Some(g) && g.asked.len() == 0,
        finder_keyed(v, Key::Char('n'), true) == finder_keyed(v, Key::Down, false),
        finder_keyed(v, Key::Char('p'), true) == finder_keyed(v, Key::Up, false),
{
    assert(f.asked.push(c).drop_last() =~= f.asked);
}

/// Enter chooses the file that the cursor is on and closes the finder; Escape
/// closes it with no choice. Where nothing is found, Enter does nothing.
pub proof fn enter_chooses_and_escape_does_not(v: AppView, f: FinderView)
    requires
        v.finder == Some(f),
        0 <= f.at,
    ensures
        f.at < results_of(f).len() ==> finder_choice(v, Key::Enter, false) == Some(
            f.items[results_of(f)[f.at].index].path,
        ) && finder_keyed(v, Key::Enter, false).finder is None,
        f.at >= results_of(f).len() ==> finder_choice(v, Key::Enter, false) is None && finder_keyed(
            v,
            Key::Enter,
            false,
        ) == v,
        finder_choice(v, Key::Esc, false) is None,
        finder_keyed(v, Key::Esc, false).finder is None,
        finder_keyed(v, Key::Char('c'), true).finder is None,
{
}

/// A valid component that is chosen while nothing is served, or being started,
/// starts a server; an invalid one does not, and the status bar says why.
pub proof fn valid_choices_start_a_server(
    v: AppView,
    name: Seq<char>,
    kind: ComponentKind,
    error: Seq<char>,
)
    requires
        kind.is_renderable(),
        !v.serving,
        !v.starting,
    ensures
        launch_of(v, kind, true) is Start,
        chosen(v, name, kind, Ok(())).starting,
        launch_of(v, kind, false) is Nothing,
        !chosen(v, name, kind, Err(error)).starting,
        chosen(v, name, kind, Err(error)).status == "invalid component: "@ + error,
{
}

/// A row is indented by two blanks for each level, and says its name; a directory
/// says by a slash that it is one.
pub proof fn rows_show_depth_and_name(row: nav::RowView, icon: (char, Color))
    ensures
        row_spans(row, icon).len() == 3,
        row_spans(row, icon)[0].content.len() == 2 * row.depth,
        forall|i: int|
            0 <= i < row_spans(row, icon)[0].content.len() ==> #[trigger] row_spans(
                row,
                icon,
            )[0].content[i] == ' ',
        row_spans(row, icon)[1].content[0] == icon.0,
        row_spans(row, icon)[1].style.fg == Some(icon.1),
        !row.entry.is_dir ==> row_spans(row, icon)[2].content == row.entry.name,
        row.entry.is_dir ==> row_spans(row, icon)[2].content.last() == '/' && row_spans(
            row,
            icon,
        )[2].content.len() == row.entry.name.len() + 3 && row_spans(
            row,
            icon,
        )[2].content.subrange(2, row.entry.name.len() + 2int) == row.entry.name && row_spans(
            row,
            icon,
        )[2].style.bold,
        row.entry.is_dir ==> label_of(nav::RowView { expanded: true, ..row }) != label_of(
            nav::RowView { expanded: false, ..row },
        ),
{
    reveal_strlit("▾ ");
    reveal_strlit("▸ ");
    reveal_strlit("/");
    reveal_strlit(" ");
    indent_is_blank(row.depth);
    if row.entry.is_dir {
        let label = label_of(row);
        assert(label.subrange(2, row.entry.name.len() + 2int) =~= row.entry.name);
        let a = label_of(nav::RowView { expanded: true, ..row });
        let b = label_of(nav::RowView { expanded: false, ..row });
        assert(a[0] == '▾' && b[0] == '▸');
    }
}

proof fn indent_is_blank(depth: nat)
    ensures
        indent(depth).len() == 2 * depth,
        forall|i: int| 0 <= i < indent(depth).len() ==> #[trigger] indent(depth)[i] == ' ',
    decreases depth,
{
    reveal_strlit("  ");
    if depth > 0 {
        indent_is_blank((depth - 1) as nat);
        let head = indent((depth - 1) as nat);
        assert forall|i: int| 0 <= i < indent(depth).len() implies #[trigger] indent(depth)[i]
            == ' ' by {
            if i < head.len() {
                assert(indent(depth)[i] == head[i]);
            }
        }
    }
}

/// Lines that tell of an error or a failure stand out in red, in whatever case they
/// tell it; other lines do not.
pub proof fn errors_stand_out(line: Seq<char>, lower: Seq<char>)
    ensures
        text::has(lower, "error"@) ==> log_style(line, lower).fg == Some(Color::Red),
        text::has(lower, "failed"@) ==> log_style(line, lower).fg == Some(Color::Red),
        !text::has(lower, "error"@) && !text::has(lower, "failed"@) && !text::has(line, "ERR!"@)
            ==> log_style(line, lower).fg == Some(Color::DarkGray),
{
}

/// The rows of the popup are the results from the first one that is shown on, one
/// behind the other, as many as there are and fit; that of the cursor is among
/// them.
pub proof fn popup_shows_the_results(f: FinderView, room: int, n: int)
    requires
        1 <= room,
        0 <= f.at < results_of(f).len(),
        0 <= n < shown_results(f, room).len(),
    ensures
        shown_results(f, room).len() <= room,
        first_shown(f.at, room) + shown_results(f, room).len() <= results_of(f).len(),
        first_shown(f.at, room) <= f.at < first_shown(f.at, room) + shown_results(f, room).len(),
        finder::spelled(shown_results(f, room)[n]) == f.items[results_of(f)[first_shown(f.at, room)
            + n].index].display,
{
    let k = first_shown(f.at, room) + n;
    let one = results_of(f)[k];
    let display = f.items[one.index].display;
    finder::line_spells_display(display, one.indices, k == f.at, 0);
    assert(display.skip(0) =~= display);
}

} // verus!
