use vstd::prelude::*;
use crate::ui::{Position, WIDTH, HEIGHT};
use crate::ui::theme::MAIN_COLOR;

verus! {

/// Page of the main menu.
pub const MENU_MAIN: usize = 0;

/// Page of the file menu.
pub const MENU_FILE: usize = 1;

/// Page of the playback menu.
pub const MENU_PLAYBACK: usize = 2;

/// Page of the settings menu.
pub const MENU_SETTINGS: usize = 3;

/// One entry of a menu page.
pub struct MenuItem {
    pub label: String,
    pub triggered: bool,
}

impl MenuItem {
    pub fn new(label: &str) -> (m: MenuItem)
        ensures
            m.label@ == label@,
            !m.triggered,
    {
        MenuItem { label: label.to_owned(), triggered: false }
    }

    /// Reports whether the entry was chosen since the last call, and clears
    /// that.
    pub fn triggered(&mut self) -> (r: bool)
        ensures
            r == old(self).triggered,
            !final(self).triggered,
            final(self).label == old(self).label,
    {
        if self.triggered {
            self.triggered = false;
            true
        } else {
            false
        }
    }

    /// Marks the entry as chosen.
    pub fn trigger(&mut self)
        ensures
            final(self).triggered,
            final(self).label == old(self).label,
    {
        self.triggered = true;
    }
}

/// The entries of one menu page.
pub type MenuPage = Vec<MenuItem>;

/// Length of the longest label among the first `n` entries.
pub open spec fn widest_label(items: Seq<MenuItem>, n: nat) -> nat
    decreases n,
{
    if n == 0 {
        0
    } else {
        let w = widest_label(items, (n - 1) as nat);
        let l = items[n - 1].label@.len();
        if l > w {
            l
        } else {
            w
        }
    }
}

/// A paged menu; `pos` is its centre.
pub struct Menu {
    pub pos: Position,
    pub fg: u32,
    pub bg: u32,
    pub pages: Vec<MenuPage>,
    pub selected_item: usize,
    pub current_page: usize,
    pub visible: bool,
}

impl Menu {
    /// Shows page `index`, with its first entry selected.
    pub fn goto_page(&mut self, index: usize)
        ensures
            final(self).current_page == index,
            final(self).selected_item == 0,
            final(self).visible == old(self).visible,
            final(self).pages == old(self).pages,
            final(self).pos == old(self).pos,
            final(self).fg == old(self).fg,
            final(self).bg == old(self).bg,
    {
        self.current_page = index;
        self.selected_item = 0;
    }

    /// Hides the menu and goes back to its first page.
    pub fn close(&mut self)
        ensures
            !final(self).visible,
            final(self).current_page == 0,
            final(self).selected_item == 0,
            final(self).pages == old(self).pages,
            final(self).pos == old(self).pos,
            final(self).fg == old(self).fg,
            final(self).bg == old(self).bg,
    {
        self.visible = false;
        self.current_page = 0;
        self.selected_item = 0;
    }

    /// Number of entries on the current page, 0 if there is no such page.
    pub open spec fn page_len(&self) -> int {
        if self.current_page < self.pages@.len() {
            self.pages@[self.current_page as int]@.len() as int
        } else {
            0
        }
    }

    /// Moves the selection up one entry, unless it is on the first.
    pub fn select_previous(&mut self)
        ensures
            final(self).selected_item == if old(self).selected_item > 0 {
                old(self).selected_item - 1
            } else {
                0
            },
            final(self).current_page == old(self).current_page,
            final(self).pages == old(self).pages,
            final(self).visible == old(self).visible,
    {
        if self.selected_item != 0 {
            self.selected_item = self.selected_item - 1;
        }
    }

    /// Moves the selection down one entry, unless it is on the last.
    pub fn select_next(&mut self)
        ensures
            final(self).selected_item == if old(self).selected_item + 1 < old(self).page_len() {
                old(self).selected_item + 1
            } else {
                old(self).selected_item as int
            },
            final(self).current_page == old(self).current_page,
            final(self).pages == old(self).pages,
            final(self).visible == old(self).visible,
    {
        if self.current_page < self.pages.len() {
            let len = self.pages[self.current_page].len();
            if self.selected_item < len && self.selected_item + 1 < len {
                self.selected_item = self.selected_item + 1;
            }
        }
    }

    /// Where the current page is drawn, centred on `pos`: first column, first
    /// row and width (its longest label). None when there is no such page, or
    /// when it would cross the left or top edge.
    pub fn layout(&self) -> (r: Option<(usize, usize, usize)>)
        ensures
            ({
                let ok = self.current_page < self.pages@.len();
                let items = self.pages@[self.current_page as int]@;
                let width = widest_label(items, items.len());
                if ok && width / 2 <= self.pos.x && items.len() <= self.pos.y {
                    r == Some(((self.pos.x - width / 2) as usize, (self.pos.y - items.len()) as usize, width as usize))
                } else {
                    r is None
                }
            }),
    {
        if self.current_page >= self.pages.len() {
            return None;
        }
        let page = &self.pages[self.current_page];
        let mut width: usize = 0;
        let mut i: usize = 0;
        while i < page.len()
            invariant
                i <= page@.len(),
                width == widest_label(page@, i as nat),
            decreases page@.len() - i,
        {
            let l = page[i].label.as_str().unicode_len();
            if l > width {
                width = l;
            }
            i = i + 1;
        }
        if width / 2 <= self.pos.x && page.len() <= self.pos.y {
            Some((self.pos.x - width / 2, self.pos.y - page.len(), width))
        } else {
            None
        }
    }

    /// Chooses the selected entry of the current page, if there is one.
    pub fn activate(&mut self)
        ensures
            final(self).pages@.len() == old(self).pages@.len(),
            final(self).current_page == old(self).current_page,
            final(self).selected_item == old(self).selected_item,
            old(self).selected_item < old(self).page_len() ==> final(self).pages@[old(self).current_page as int]@[old(self).selected_item as int].triggered,
            forall|p: int| 0 <= p < old(self).pages@.len() ==> (#[trigger] final(self).pages@[p])@.len() == old(self).pages@[p]@.len(),
            forall|p: int, i: int|
                0 <= p < old(self).pages@.len() && 0 <= i < old(self).pages@[p]@.len() && !(p == old(self).current_page && i
                    == old(self).selected_item) ==> #[trigger] final(self).pages@[p]@[i] == old(self).pages@[p]@[i],
            forall|p: int, i: int|
                0 <= p < old(self).pages@.len() && 0 <= i < old(self).pages@[p]@.len() ==> (#[trigger] final(self).pages@[p]@[i]).label
                    == old(self).pages@[p]@[i].label,
    {
        if self.current_page < self.pages.len() && self.selected_item < self.pages[self.current_page].len() {
            let p = self.current_page;
            let i = self.selected_item;
            self.pages[p][i].trigger();
        }
    }
}

/// The application's menu: a main page (File, Playback, Settings, Quit), a
/// file page, a playback page (Play, Pause, Stop) and a settings page; hidden,
/// centred on the window.
pub fn main_menu() -> (m: Menu)
    ensures
        m.pages@.len() == 4,
        m.pages@[MENU_MAIN as int]@.len() == 4,
        m.pages@[MENU_MAIN as int]@[0].label@ == "File"@,
        m.pages@[MENU_MAIN as int]@[1].label@ == "Playback"@,
        m.pages@[MENU_MAIN as int]@[2].label@ == "Settings"@,
        m.pages@[MENU_MAIN as int]@[3].label@ == "Quit"@,
        m.pages@[MENU_FILE as int]@.len() == 1,
        m.pages@[MENU_FILE as int]@[0].label@ == "Not implemented, sorry!"@,
        m.pages@[MENU_PLAYBACK as int]@.len() == 3,
        m.pages@[MENU_PLAYBACK as int]@[0].label@ == "Play"@,
        m.pages@[MENU_PLAYBACK as int]@[1].label@ == "Pause"@,
        m.pages@[MENU_PLAYBACK as int]@[2].label@ == "Stop"@,
        m.pages@[MENU_SETTINGS as int]@.len() == 1,
        m.pages@[MENU_SETTINGS as int]@[0].label@ == "Not implemented, sorry!"@,
        forall|p: int, i: int| 0 <= p < 4 && 0 <= i < m.pages@[p]@.len() ==> !(#[trigger] m.pages@[p]@[i]).triggered,
        m.selected_item == 0,
        m.current_page == 0,
        !m.visible,
        m.pos == (Position { x: WIDTH / 16, y: HEIGHT / 16 }),
        m.fg == 0,
        m.bg == MAIN_COLOR,
{
    let mut pages: Vec<MenuPage> = Vec::with_capacity(16);
    let mut main: MenuPage = Vec::new();
    main.push(MenuItem::new("File"));
    main.push(MenuItem::new("Playback"));
    main.push(MenuItem::new("Settings"));
    main.push(MenuItem::new("Quit"));
    pages.push(main);
    let mut file: MenuPage = Vec::new();
    file.push(MenuItem::new("Not implemented, sorry!"));
    pages.push(file);
    let mut playback: MenuPage = Vec::new();
    playback.push(MenuItem::new("Play"));
    playback.push(MenuItem::new("Pause"));
    playback.push(MenuItem::new("Stop"));
    pages.push(playback);
    let mut settings: MenuPage = Vec::new();
    settings.push(MenuItem::new("Not implemented, sorry!"));
    pages.push(settings);
    Menu {
        pages,
        selected_item: 0,
        current_page: 0,
        visible: false,
        pos: Position { x: WIDTH / 16, y: HEIGHT / 16 },
        fg: 0,
        bg: MAIN_COLOR,
    }
}

} // verus!
