//! The terminal surface's decision core: the screen state machine that
//! interprets key input, edits the form fields, and tells the surrounding
//! shell which effect to perform (persist, run the engine, control the
//! background service). Drawing and raw input stay outside the library.

use crate::config::{has_id, registry_wf, Config};
use crate::numbers::{all_digits, dec_val, is_digit, is_digit_char, parse_u64_digits};
use crate::text::{
    chars_of, drop_last_char, is_space, is_space_char, join_strings, kept_parts, push_all,
    push_char, slice_range, split_lines, split_on, split_trim_keep, string_from_chars, trim_front,
};
use crate::watcher::{Watcher, WatcherView};
use vstd::prelude::*;
use vstd::string::StrSliceExecFns;

verus! {

/// Which screen the surface shows.
#[derive(Clone, Copy)]
pub enum Screen {
    MainMenu,
    AddWatcher,
    ListWatchers,
    /// Editing the watcher at this registry position.
    EditWatcher(usize),
    ServiceControl,
}

/// Which form field is active on the add and edit screens.
pub enum FormField {
    Url,
    Keywords,
    Interval,
}

/// A key press, reduced to what the state machine distinguishes.
#[derive(Clone, Copy)]
pub enum InputKey {
    Char(char),
    Enter,
    Tab,
    Backspace,
    Esc,
    Up,
    Down,
    Other,
}

/// The effect the shell must perform after a transition.
pub enum UiAction {
    /// Nothing beyond the state change.
    Idle,
    /// Persist the registry to the backing store.
    Persist,
    /// Persist the registry, leave the surface, and run the watch engine.
    StartMonitoring,
    /// Ask the service manager whether the background service runs, and
    /// hand the answer back through `set_service_running`.
    RefreshServiceStatus,
    /// Start the background service and report back.
    StartService,
    /// Stop the background service and report back.
    StopService,
}

/// The whole state of the terminal surface.
pub struct UiState {
    pub config: Config,
    pub screen: Screen,
    pub menu_selected: usize,
    pub list_selected: Option<usize>,
    pub form_field: FormField,
    pub url_input: String,
    pub keywords_input: String,
    pub interval_input: String,
    pub service_status_message: String,
    pub service_is_running: bool,
}

/// The number of main menu entries.
pub open spec fn menu_len() -> int {
    5
}

/// The surface invariant: the menu cursor stays on an entry, an edit
/// screen always points into the registry, and the registry invariant
/// holds.
pub open spec fn ui_wf(s: UiState) -> bool {
    &&& s.menu_selected < menu_len()
    &&& (s.screen matches Screen::EditWatcher(i) ==> i < s.config@.len())
    &&& registry_wf(s.config@)
}

/// The keyword list a comma-separated form entry denotes: split at commas,
/// entries trimmed, empty entries dropped.
pub open spec fn keywords_of_input(s: Seq<char>) -> Seq<Seq<char>> {
    kept_parts(split_on(s, ','))
}

/// Parses the keyword form entry.
pub fn keywords_from_input(s: &str) -> (r: Vec<String>)
    ensures
        r.deep_view() == keywords_of_input(s@),
{
    let cs = chars_of(s);
    let parts = split_trim_keep(cs.as_slice(), ',');
    let mut out: Vec<String> = Vec::new();
    let mut i: usize = 0;
    while i < parts.len()
        invariant
            0 <= i <= parts@.len(),
            out.deep_view() =~= parts@.map_values(|l: Vec<char>| l@).subrange(0, i as int),
        decreases parts@.len() - i,
    {
        let ghost old_deep = out.deep_view();
        out.push(string_from_chars(parts[i].as_slice()));
        proof {
            assert(out.deep_view() =~= old_deep.push(parts@[i as int]@));
            assert(parts@.map_values(|l: Vec<char>| l@).subrange(0, i + 1 as int) =~= parts@
                .map_values(|l: Vec<char>| l@).subrange(0, i as int).push(parts@[i as int]@));
        }
        i = i + 1;
    }
    proof {
        assert(parts@.map_values(|l: Vec<char>| l@).subrange(
            0,
            parts@.len() as int,
        ) =~= parts@.map_values(|l: Vec<char>| l@));
    }
    out
}

/// The cadence in seconds an interval form entry denotes: the entry read
/// as minutes and converted to seconds; an entry that is empty, not a
/// number, zero, or too large to convert falls back to thirty minutes.
pub open spec fn interval_secs_of(s: Seq<char>) -> u64 {
    let m: int = if s.len() > 0 && all_digits(s) && 0 < dec_val(s) <= u64::MAX {
        dec_val(s)
    } else {
        30
    };
    if m * 60 <= u64::MAX {
        (m * 60) as u64
    } else {
        1800
    }
}

/// Parses the interval form entry; the result is always positive.
pub fn parse_interval_input(s: &str) -> (r: u64)
    ensures
        r == interval_secs_of(s@),
        r > 0,
{
    let cs = chars_of(s);
    let minutes: u64 = if cs.len() == 0 {
        30
    } else {
        match parse_u64_digits(cs.as_slice()) {
            Some(v) => if v == 0 {
                30
            } else {
                v
            },
            None => 30,
        }
    };
    proof {
        if cs@.len() > 0 && !all_digits(cs@) {
            assert(minutes == 30);
        }
    }
    match minutes.checked_mul(60) {
        Some(secs) => secs,
        None => 1800,
    }
}

impl UiState {
    /// The surface as it first opens: main menu, first entry selected,
    /// empty form with the default interval entry.
    pub fn new(config: Config) -> (r: UiState)
        requires
            registry_wf(config@),
        ensures
            ui_wf(r),
            r.config@ == config@,
            r.screen is MainMenu,
            r.menu_selected == 0,
            r.list_selected is None,
            r.form_field is Url,
            r.url_input@ == Seq::<char>::empty(),
            r.keywords_input@ == Seq::<char>::empty(),
            r.interval_input@ == "30"@,
            r.service_status_message@ == Seq::<char>::empty(),
            !r.service_is_running,
    {
        let thirty = chars_of("30");
        UiState {
            config,
            screen: Screen::MainMenu,
            menu_selected: 0,
            list_selected: None,
            form_field: FormField::Url,
            url_input: String::new(),
            keywords_input: String::new(),
            interval_input: string_from_chars(thirty.as_slice()),
            service_status_message: String::new(),
            service_is_running: false,
        }
    }

    /// Empties the form and puts the cursor back on the first field.
    pub fn clear_form(&mut self)
        ensures
            final(self).config == old(self).config,
            final(self).screen == old(self).screen,
            final(self).menu_selected == old(self).menu_selected,
            final(self).list_selected == old(self).list_selected,
            final(self).service_status_message == old(self).service_status_message,
            final(self).service_is_running == old(self).service_is_running,
            final(self).form_field is Url,
            final(self).url_input@ == Seq::<char>::empty(),
            final(self).keywords_input@ == Seq::<char>::empty(),
            final(self).interval_input@ == "30"@,
    {
        let thirty = chars_of("30");
        self.url_input = String::new();
        self.keywords_input = String::new();
        self.interval_input = string_from_chars(thirty.as_slice());
        self.form_field = FormField::Url;
    }

    /// Fills the form from the watcher at `index`, for editing: its target,
    /// its keywords joined with commas, and its cadence in whole minutes.
    pub fn populate_form_from_watcher(&mut self, index: usize)
        requires
            index < old(self).config@.len(),
        ensures
            final(self).config == old(self).config,
            final(self).screen == old(self).screen,
            final(self).menu_selected == old(self).menu_selected,
            final(self).list_selected == old(self).list_selected,
            final(self).service_status_message == old(self).service_status_message,
            final(self).service_is_running == old(self).service_is_running,
            final(self).form_field is Url,
            final(self).url_input@ == old(self).config@[index as int].url,
            final(self).keywords_input@ == crate::text::join_with_sep(
                old(self).config@[index as int].keywords,
                ", "@,
            ),
            final(self).interval_input@ == crate::numbers::dec_digits(
                (old(self).config@[index as int].check_interval / 60) as nat,
            ),
    {
        let url = chars_of(self.config.watchers[index].url.as_str());
        let joined = join_strings(&self.config.watchers[index].keywords, ", ");
        let minutes = self.config.watchers[index].check_interval / 60;
        self.url_input = string_from_chars(url.as_slice());
        self.keywords_input = joined;
        self.interval_input = crate::numbers::u64_to_string(minutes);
        self.form_field = FormField::Url;
        proof {
            assert(old(self).config@[index as int].keywords =~= old(self).config.watchers@[index as int].keywords.deep_view());
        }
    }

    /// Stores the service manager's answer about the background service.
    pub fn set_service_running(&mut self, running: bool)
        ensures
            *final(self) == (UiState { service_is_running: running, ..*old(self) }),
    {
        self.service_is_running = running;
    }

    /// Stores a message for the service screen.
    pub fn set_service_message(&mut self, message: String)
        ensures
            *final(self) == (UiState { service_status_message: message, ..*old(self) }),
    {
        self.service_status_message = message;
    }
}

// ---------------------------------------------------------------------
// Key classification on each screen.
// ---------------------------------------------------------------------
/// Whether the key activates the selected menu entry.
pub open spec fn activates(key: InputKey) -> bool {
    key is Enter || key == InputKey::Char(' ')
}

pub open spec fn nav_down(key: InputKey) -> bool {
    key is Down || key == InputKey::Char('j')
}

pub open spec fn nav_up(key: InputKey) -> bool {
    key is Up || key == InputKey::Char('k')
}

/// The main menu keys that leave the surface.
pub open spec fn main_menu_exit(s: UiState, key: InputKey) -> bool {
    ||| key == InputKey::Char('q')
    ||| key is Esc
    ||| key == InputKey::Char('5')
    ||| (activates(key) && s.menu_selected == 4)
}

/// The main menu keys that hand over to the watch engine.
pub open spec fn main_menu_monitor(s: UiState, key: InputKey) -> bool {
    ||| key == InputKey::Char('3')
    ||| (activates(key) && s.menu_selected == 2)
}

pub open spec fn main_menu_add(s: UiState, key: InputKey) -> bool {
    ||| key == InputKey::Char('1')
    ||| (activates(key) && s.menu_selected == 0)
}

pub open spec fn main_menu_list(s: UiState, key: InputKey) -> bool {
    ||| key == InputKey::Char('2')
    ||| (activates(key) && s.menu_selected == 1)
}

pub open spec fn main_menu_service(s: UiState, key: InputKey) -> bool {
    ||| key == InputKey::Char('4')
    ||| (activates(key) && s.menu_selected == 3)
}

/// Whether the list screen's cursor rests on an existing record.
pub open spec fn sel_valid(s: UiState) -> bool {
    s.list_selected matches Some(i) && i < s.config@.len()
}

/// Both states carry the same form fields.
pub open spec fn same_form(a: UiState, b: UiState) -> bool {
    &&& a.form_field == b.form_field
    &&& a.url_input@ == b.url_input@
    &&& a.keywords_input@ == b.keywords_input@
    &&& a.interval_input@ == b.interval_input@
}

/// Both states carry the same service screen state.
pub open spec fn same_service(a: UiState, b: UiState) -> bool {
    &&& a.service_status_message@ == b.service_status_message@
    &&& a.service_is_running == b.service_is_running
}

/// The form shows the record `w`: its target, its keywords joined with
/// commas, its cadence in whole minutes.
pub open spec fn form_shows(s: UiState, w: WatcherView) -> bool {
    &&& s.form_field is Url
    &&& s.url_input@ == w.url
    &&& s.keywords_input@ == crate::text::join_with_sep(w.keywords, ", "@)
    &&& s.interval_input@ == crate::numbers::dec_digits((w.check_interval / 60) as nat)
}

/// The form is empty again, with the default interval entry.
pub open spec fn form_cleared(s: UiState) -> bool {
    &&& s.form_field is Url
    &&& s.url_input@ == Seq::<char>::empty()
    &&& s.keywords_input@ == Seq::<char>::empty()
    &&& s.interval_input@ == "30"@
}

/// The add and edit screens accept a saving key press only when both the
/// target and the keyword entries hold text.
pub open spec fn form_submittable(s: UiState) -> bool {
    s.url_input@.len() > 0 && s.keywords_input@.len() > 0
}

/// How the registry changes when the form is saved as a new watcher: a
/// fresh record built from the form is appended, carrying a drawn
/// identifier; if that identifier happened to be taken, the registry is
/// left alone.
pub open spec fn added_from_form(
    old_cfg: Seq<WatcherView>,
    new_cfg: Seq<WatcherView>,
    url: Seq<char>,
    kw_input: Seq<char>,
    interval_input: Seq<char>,
) -> bool {
    ||| new_cfg == old_cfg
    ||| {
        &&& new_cfg.len() == old_cfg.len() + 1
        &&& new_cfg.subrange(0, old_cfg.len() as int) == old_cfg
        &&& new_cfg.last().url == url
        &&& new_cfg.last().keywords == keywords_of_input(kw_input)
        &&& new_cfg.last().check_interval == interval_secs_of(interval_input)
        &&& new_cfg.last().enabled
        &&& new_cfg.last().last_checked is None
        &&& !has_id(old_cfg, new_cfg.last().id)
    }
}

/// The active form field after one tab press.
pub open spec fn next_field(f: FormField) -> FormField {
    match f {
        FormField::Url => FormField::Keywords,
        FormField::Keywords => FormField::Interval,
        FormField::Interval => FormField::Url,
    }
}

/// A form field's text with the last character removed.
pub open spec fn popped(s: Seq<char>) -> Seq<char> {
    if s.len() == 0 {
        s
    } else {
        s.drop_last()
    }
}

impl UiState {
    /// One key press on the main menu. Leaves the registry and the form
    /// alone; moves the menu cursor, switches screens, and reports when
    /// the surface should close or the engine should take over.
    pub fn handle_main_menu_input(&mut self, key: InputKey) -> (r: (bool, UiAction))
        requires
            ui_wf(*old(self)),
        ensures
            ui_wf(*final(self)),
            final(self).config == old(self).config,
            same_form(*old(self), *final(self)),
            same_service(*old(self), *final(self)),
            r.0 == (main_menu_exit(*old(self), key) || main_menu_monitor(*old(self), key)),
            (r.1 is StartMonitoring) == main_menu_monitor(*old(self), key),
            (r.1 is RefreshServiceStatus) == (main_menu_service(*old(self), key) && !main_menu_exit(
                *old(self),
                key,
            )),
            r.1 is StartMonitoring || r.1 is RefreshServiceStatus || r.1 is Idle,
            final(self).menu_selected == (if nav_down(key) {
                ((old(self).menu_selected + 1) % 5) as int
            } else if nav_up(key) {
                if old(self).menu_selected == 0 {
                    4int
                } else {
                    old(self).menu_selected - 1
                }
            } else {
                old(self).menu_selected as int
            }),
            main_menu_add(*old(self), key) && !main_menu_exit(*old(self), key) ==> final(self).screen is AddWatcher,
            main_menu_list(*old(self), key) && !main_menu_exit(*old(self), key) ==> final(self).screen is ListWatchers,
            main_menu_service(*old(self), key) && !main_menu_exit(*old(self), key) ==> final(self).screen is ServiceControl,
            !(main_menu_add(*old(self), key) || main_menu_list(*old(self), key)
                || main_menu_service(*old(self), key)) ==> final(self).screen == old(self).screen,
            (main_menu_list(*old(self), key) && !main_menu_exit(*old(self), key) && old(self).config@.len() > 0) ==> final(self).list_selected == Some(0usize),
            !(main_menu_list(*old(self), key) && !main_menu_exit(*old(self), key) && old(self).config@.len() > 0) ==> final(self).list_selected == old(self).list_selected,
    {
        match key {
            InputKey::Char('q') | InputKey::Esc => (true, UiAction::Idle),
            InputKey::Down | InputKey::Char('j') => {
                self.menu_selected = (self.menu_selected + 1) % 5;
                (false, UiAction::Idle)
            },
            InputKey::Up | InputKey::Char('k') => {
                self.menu_selected = if self.menu_selected == 0 {
                    4
                } else {
                    self.menu_selected - 1
                };
                (false, UiAction::Idle)
            },
            InputKey::Enter | InputKey::Char(' ') => {
                if self.menu_selected == 0 {
                    self.screen = Screen::AddWatcher;
                    (false, UiAction::Idle)
                } else if self.menu_selected == 1 {
                    self.screen = Screen::ListWatchers;
                    if self.config.watchers.len() > 0 {
                        self.list_selected = Some(0);
                    }
                    (false, UiAction::Idle)
                } else if self.menu_selected == 2 {
                    (true, UiAction::StartMonitoring)
                } else if self.menu_selected == 3 {
                    self.screen = Screen::ServiceControl;
                    (false, UiAction::RefreshServiceStatus)
                } else {
                    (true, UiAction::Idle)
                }
            },
            InputKey::Char('1') => {
                self.screen = Screen::AddWatcher;
                (false, UiAction::Idle)
            },
            InputKey::Char('2') => {
                self.screen = Screen::ListWatchers;
                if self.config.watchers.len() > 0 {
                    self.list_selected = Some(0);
                }
                (false, UiAction::Idle)
            },
            InputKey::Char('3') => (true, UiAction::StartMonitoring),
            InputKey::Char('4') => {
                self.screen = Screen::ServiceControl;
                (false, UiAction::RefreshServiceStatus)
            },
            InputKey::Char('5') => (true, UiAction::Idle),
            _ => (false, UiAction::Idle),
        }
    }

    /// One key press on the service screen: back to the menu, or a start,
    /// stop or refresh request for the shell to carry out.
    pub fn handle_service_control_input(&mut self, key: InputKey) -> (r: (bool, UiAction))
        requires
            ui_wf(*old(self)),
        ensures
            ui_wf(*final(self)),
            final(self).config == old(self).config,
            same_form(*old(self), *final(self)),
            final(self).menu_selected == old(self).menu_selected,
            final(self).list_selected == old(self).list_selected,
            final(self).service_is_running == old(self).service_is_running,
            !r.0,
            key is Esc ==> final(self).screen is MainMenu && final(self).service_status_message@ == Seq::<char>::empty() && r.1 is Idle,
            !(key is Esc) ==> final(self).screen == old(self).screen,
            key == InputKey::Char('s') ==> r.1 is StartService,
            key == InputKey::Char('x') ==> r.1 is StopService,
            key == InputKey::Char('r') ==> r.1 is RefreshServiceStatus && final(self).service_status_message@ == "Status refreshed."@,
            !(key is Esc || key == InputKey::Char('s') || key == InputKey::Char('x') || key
                == InputKey::Char('r')) ==> r.1 is Idle && final(self).service_status_message
                == old(self).service_status_message,
    {
        match key {
            InputKey::Esc => {
                self.service_status_message = String::new();
                self.screen = Screen::MainMenu;
                (false, UiAction::Idle)
            },
            InputKey::Char('s') => (false, UiAction::StartService),
            InputKey::Char('x') => (false, UiAction::StopService),
            InputKey::Char('r') => {
                let refreshed = chars_of("Status refreshed.");
                self.service_status_message = string_from_chars(refreshed.as_slice());
                (false, UiAction::RefreshServiceStatus)
            },
            _ => (false, UiAction::Idle),
        }
    }
}

impl UiState {
    /// One key press on the watcher list: navigation, toggling, deletion,
    /// and the way into the add and edit screens. Toggling and deleting
    /// change the registry and ask the shell to persist it.
    #[verifier::rlimit(60)]
    pub fn handle_list_watchers_input(&mut self, key: InputKey) -> (r: (bool, UiAction))
        requires
            ui_wf(*old(self)),
            old(self).screen is ListWatchers,
        ensures
            ui_wf(*final(self)),
            same_service(*old(self), *final(self)),
            final(self).menu_selected == old(self).menu_selected,
            !r.0,
            (r.1 is Persist) == ((key == InputKey::Char('t') || key == InputKey::Char('d'))
                && sel_valid(*old(self))),
            r.1 is Persist || r.1 is Idle,
            key == InputKey::Char('t') && sel_valid(*old(self)) ==> final(self).config@ == old(self).config@.update(
                old(self).list_selected.unwrap() as int,
                (WatcherView {
                    enabled: !old(self).config@[old(self).list_selected.unwrap() as int].enabled,
                    ..old(self).config@[old(self).list_selected.unwrap() as int]
                }),
            ),
            key == InputKey::Char('d') && sel_valid(*old(self)) ==> final(self).config@ == old(self).config@.remove(old(self).list_selected.unwrap() as int),
            !((key == InputKey::Char('t') || key == InputKey::Char('d')) && sel_valid(
                *old(self),
            )) ==> final(self).config@ == old(self).config@,
            key is Esc ==> final(self).screen is MainMenu,
            key == InputKey::Char('a') ==> final(self).screen is AddWatcher && form_cleared(
                *final(self),
            ),
            key == InputKey::Char('e') && sel_valid(*old(self)) ==> (final(self).screen matches Screen::EditWatcher(i) && i == old(self).list_selected.unwrap()
                && form_shows(
                *final(self),
                old(self).config@[old(self).list_selected.unwrap() as int],
            )),
            !(key is Esc || key == InputKey::Char('a') || (key == InputKey::Char('e') && sel_valid(
                *old(self),
            ))) ==> final(self).screen == old(self).screen,
            !(key == InputKey::Char('a') || (key == InputKey::Char('e') && sel_valid(*old(self))))
                ==> same_form(*old(self), *final(self)),
            nav_down(key) && old(self).config@.len() > 0 ==> final(self).list_selected == Some(
                (match old(self).list_selected {
                    Some(i) => if (i as int) < old(self).config@.len() {
                        (((i + 1) as int) % old(self).config@.len() as int) as usize
                    } else {
                        0usize
                    },
                    None => 0usize,
                }),
            ),
            nav_up(key) && old(self).config@.len() > 0 ==> final(self).list_selected == Some(
                (match old(self).list_selected {
                    Some(i) => if i == 0 {
                        (old(self).config@.len() - 1) as usize
                    } else {
                        (i - 1) as usize
                    },
                    None => 0usize,
                }),
            ),
            key == InputKey::Char('d') && sel_valid(*old(self)) ==> final(self).list_selected
                == (if old(self).config@.len() <= 1 {
                None::<usize>
            } else if old(self).list_selected.unwrap() as int >= old(self).config@.len() - 1 {
                Some((old(self).config@.len() - 2) as usize)
            } else {
                old(self).list_selected
            }),
            !(((nav_down(key) || nav_up(key)) && old(self).config@.len() > 0) || (key
                == InputKey::Char('d') && sel_valid(*old(self)))) ==> final(self).list_selected
                == old(self).list_selected,
    {
        match key {
            InputKey::Esc => {
                self.screen = Screen::MainMenu;
                (false, UiAction::Idle)
            },
            InputKey::Down | InputKey::Char('j') => {
                let n = self.config.watchers.len();
                if n > 0 {
                    let i: usize = match self.list_selected {
                        Some(i) => if i < n {
                            (i + 1) % n
                        } else {
                            0
                        },
                        None => 0,
                    };
                    self.list_selected = Some(i);
                }
                (false, UiAction::Idle)
            },
            InputKey::Up | InputKey::Char('k') => {
                let n = self.config.watchers.len();
                if n > 0 {
                    let i: usize = match self.list_selected {
                        Some(i) => if i == 0 {
                            n - 1
                        } else {
                            i - 1
                        },
                        None => 0,
                    };
                    self.list_selected = Some(i);
                }
                (false, UiAction::Idle)
            },
            InputKey::Char('t') => {
                match self.list_selected {
                    Some(i) => {
                        if i < self.config.watchers.len() {
                            self.config.toggle_watcher(i);
                            return (false, UiAction::Persist);
                        }
                    },
                    None => {},
                }
                (false, UiAction::Idle)
            },
            InputKey::Char('d') => {
                match self.list_selected {
                    Some(i) => {
                        if i < self.config.watchers.len() {
                            self.config.remove_watcher(i);
                            let n = self.config.watchers.len();
                            if n == 0 {
                                self.list_selected = None;
                            } else if i >= n {
                                self.list_selected = Some(n - 1);
                            }
                            proof {
                                let l = old(self).config@.len() as int;
                                assert(self.config@.len() == l - 1);
                                if l <= 1 {
                                    assert(self.list_selected is None);
                                } else if i as int >= l - 1 {
                                    assert(self.list_selected == Some(((l - 2) as usize)));
                                } else {
                                    assert(self.list_selected == old(self).list_selected);
                                }
                            }
                            return (false, UiAction::Persist);
                        }
                    },
                    None => {},
                }
                (false, UiAction::Idle)
            },
            InputKey::Char('a') => {
                self.clear_form();
                self.screen = Screen::AddWatcher;
                (false, UiAction::Idle)
            },
            InputKey::Char('e') => {
                match self.list_selected {
                    Some(i) => {
                        if i < self.config.watchers.len() {
                            self.populate_form_from_watcher(i);
                            self.screen = Screen::EditWatcher(i);
                        }
                    },
                    None => {},
                }
                (false, UiAction::Idle)
            },
            _ => (false, UiAction::Idle),
        }
    }

    /// One character typed into the active form field; the interval field
    /// accepts only digits.
    fn form_type_char(&mut self, c: char)
        ensures
            final(self).config == old(self).config,
            final(self).screen == old(self).screen,
            final(self).menu_selected == old(self).menu_selected,
            final(self).list_selected == old(self).list_selected,
            same_service(*old(self), *final(self)),
            final(self).form_field == old(self).form_field,
            old(self).form_field is Url ==> final(self).url_input@ == old(self).url_input@.push(c)
                && final(self).keywords_input@ == old(self).keywords_input@ && final(self).interval_input@ == old(self).interval_input@,
            old(self).form_field is Keywords ==> final(self).keywords_input@ == old(self).keywords_input@.push(c) && final(self).url_input@ == old(self).url_input@ && final(self).interval_input@ == old(self).interval_input@,
            old(self).form_field is Interval ==> final(self).interval_input@ == (if is_digit_char(
                c,
            ) {
                old(self).interval_input@.push(c)
            } else {
                old(self).interval_input@
            }) && final(self).url_input@ == old(self).url_input@ && final(self).keywords_input@
                == old(self).keywords_input@,
    {
        match self.form_field {
            FormField::Url => {
                let next = push_char(self.url_input.as_str(), c);
                self.url_input = next;
            },
            FormField::Keywords => {
                let next = push_char(self.keywords_input.as_str(), c);
                self.keywords_input = next;
            },
            FormField::Interval => {
                if is_digit(c) {
                    let next = push_char(self.interval_input.as_str(), c);
                    self.interval_input = next;
                }
            },
        }
    }

    /// One backspace in the active form field.
    fn form_backspace(&mut self)
        ensures
            final(self).config == old(self).config,
            final(self).screen == old(self).screen,
            final(self).menu_selected == old(self).menu_selected,
            final(self).list_selected == old(self).list_selected,
            same_service(*old(self), *final(self)),
            final(self).form_field == old(self).form_field,
            old(self).form_field is Url ==> final(self).url_input@ == popped(old(self).url_input@)
                && final(self).keywords_input@ == old(self).keywords_input@ && final(self).interval_input@ == old(self).interval_input@,
            old(self).form_field is Keywords ==> final(self).keywords_input@ == popped(
                old(self).keywords_input@,
            ) && final(self).url_input@ == old(self).url_input@ && final(self).interval_input@
                == old(self).interval_input@,
            old(self).form_field is Interval ==> final(self).interval_input@ == popped(
                old(self).interval_input@,
            ) && final(self).url_input@ == old(self).url_input@ && final(self).keywords_input@
                == old(self).keywords_input@,
    {
        match self.form_field {
            FormField::Url => {
                let next = drop_last_char(self.url_input.as_str());
                self.url_input = next;
            },
            FormField::Keywords => {
                let next = drop_last_char(self.keywords_input.as_str());
                self.keywords_input = next;
            },
            FormField::Interval => {
                let next = drop_last_char(self.interval_input.as_str());
                self.interval_input = next;
            },
        }
    }

    /// One key press on the add screen: form editing, and on a saving key
    /// press with a filled form, a new watcher built from the form.
    pub fn handle_add_watcher_input(&mut self, key: InputKey) -> (r: (bool, UiAction))
        requires
            ui_wf(*old(self)),
        ensures
            ui_wf(*final(self)),
            same_service(*old(self), *final(self)),
            final(self).menu_selected == old(self).menu_selected,
            final(self).list_selected == old(self).list_selected,
            !r.0,
            (r.1 is Persist) == (key is Enter && form_submittable(*old(self))),
            r.1 is Persist || r.1 is Idle,
            key is Enter && form_submittable(*old(self)) ==> (added_from_form(
                old(self).config@,
                final(self).config@,
                old(self).url_input@,
                old(self).keywords_input@,
                old(self).interval_input@,
            ) && final(self).screen is MainMenu && form_cleared(*final(self))),
            !(key is Enter && form_submittable(*old(self))) ==> final(self).config@ == old(self).config@,
            key is Esc ==> final(self).screen is MainMenu && form_cleared(*final(self)),
            key is Tab ==> final(self).form_field == next_field(old(self).form_field) && final(self).screen == old(self).screen,
            !(key is Esc || (key is Enter && form_submittable(*old(self)))) ==> final(self).screen
                == old(self).screen,
    {
        match key {
            InputKey::Esc => {
                self.screen = Screen::MainMenu;
                self.clear_form();
                (false, UiAction::Idle)
            },
            InputKey::Tab => {
                self.form_field = match self.form_field {
                    FormField::Url => FormField::Keywords,
                    FormField::Keywords => FormField::Interval,
                    FormField::Interval => FormField::Url,
                };
                (false, UiAction::Idle)
            },
            InputKey::Enter => {
                if self.url_input.as_str().unicode_len() > 0 && self.keywords_input.as_str().unicode_len() > 0 {
                    let interval = parse_interval_input(self.interval_input.as_str());
                    let keywords = keywords_from_input(self.keywords_input.as_str());
                    let url = chars_of(self.url_input.as_str());
                    let w = Watcher::new(string_from_chars(url.as_slice()), keywords, interval);
                    let ghost wv = w@;
                    let added = self.config.add_watcher(w);
                    proof {
                        if added {
                            assert(self.config@.subrange(
                                0,
                                old(self).config@.len() as int,
                            ) =~= old(self).config@);
                        }
                    }
                    self.screen = Screen::MainMenu;
                    self.clear_form();
                    (false, UiAction::Persist)
                } else {
                    (false, UiAction::Idle)
                }
            },
            InputKey::Backspace => {
                self.form_backspace();
                (false, UiAction::Idle)
            },
            InputKey::Char(c) => {
                self.form_type_char(c);
                (false, UiAction::Idle)
            },
            _ => (false, UiAction::Idle),
        }
    }

    /// One key press on the edit screen for the record at `index`: form
    /// editing, and on a saving key press with a filled form, the record's
    /// target, keywords and cadence replaced from the form.
    pub fn handle_edit_watcher_input(&mut self, key: InputKey, index: usize) -> (r: (
        bool,
        UiAction,
    ))
        requires
            ui_wf(*old(self)),
            index < old(self).config@.len(),
        ensures
            ui_wf(*final(self)),
            same_service(*old(self), *final(self)),
            final(self).menu_selected == old(self).menu_selected,
            final(self).list_selected == old(self).list_selected,
            !r.0,
            (r.1 is Persist) == (key is Enter && form_submittable(*old(self))),
            r.1 is Persist || r.1 is Idle,
            key is Enter && form_submittable(*old(self)) ==> (final(self).config@ == old(self).config@.update(
                index as int,
                (WatcherView {
                    url: old(self).url_input@,
                    keywords: keywords_of_input(old(self).keywords_input@),
                    check_interval: interval_secs_of(old(self).interval_input@),
                    ..old(self).config@[index as int]
                }),
            ) && final(self).screen is ListWatchers && form_cleared(*final(self))),
            !(key is Enter && form_submittable(*old(self))) ==> final(self).config@ == old(self).config@,
            key is Esc ==> final(self).screen is ListWatchers && form_cleared(*final(self)),
            key is Tab ==> final(self).form_field == next_field(old(self).form_field) && final(self).screen == old(self).screen,
            !(key is Esc || (key is Enter && form_submittable(*old(self)))) ==> final(self).screen
                == old(self).screen,
    {
        match key {
            InputKey::Esc => {
                self.screen = Screen::ListWatchers;
                self.clear_form();
                (false, UiAction::Idle)
            },
            InputKey::Tab => {
                self.form_field = match self.form_field {
                    FormField::Url => FormField::Keywords,
                    FormField::Keywords => FormField::Interval,
                    FormField::Interval => FormField::Url,
                };
                (false, UiAction::Idle)
            },
            InputKey::Enter => {
                if self.url_input.as_str().unicode_len() > 0 && self.keywords_input.as_str().unicode_len() > 0 {
                    let interval = parse_interval_input(self.interval_input.as_str());
                    let keywords = keywords_from_input(self.keywords_input.as_str());
                    let url = chars_of(self.url_input.as_str());
                    self.config.edit_watcher(
                        index,
                        string_from_chars(url.as_slice()),
                        keywords,
                        interval,
                    );
                    self.screen = Screen::ListWatchers;
                    self.clear_form();
                    (false, UiAction::Persist)
                } else {
                    (false, UiAction::Idle)
                }
            },
            InputKey::Backspace => {
                self.form_backspace();
                (false, UiAction::Idle)
            },
            InputKey::Char(c) => {
                self.form_type_char(c);
                (false, UiAction::Idle)
            },
            _ => (false, UiAction::Idle),
        }
    }

    /// One key press, routed to the handler of the screen that shows.
    /// Reports whether the surface should close and what effect the shell
    /// must perform.
    pub fn handle_input(&mut self, key: InputKey) -> (r: (bool, UiAction))
        requires
            ui_wf(*old(self)),
        ensures
            ui_wf(*final(self)),
    {
        match self.screen {
            Screen::MainMenu => self.handle_main_menu_input(key),
            Screen::AddWatcher => self.handle_add_watcher_input(key),
            Screen::ListWatchers => self.handle_list_watchers_input(key),
            Screen::EditWatcher(index) => self.handle_edit_watcher_input(key, index),
            Screen::ServiceControl => self.handle_service_control_input(key),
        }
    }
}

/// The display line for one watcher on the list screen: its standing, its
/// one-based position, its target, its keywords and its cadence in whole
/// minutes.
pub open spec fn list_line_of(w: WatcherView, index: int) -> Seq<char> {
    (if w.enabled {
        "✓"@
    } else {
        "✗"@
    }) + " ["@ + crate::numbers::dec_digits((index + 1) as nat) + "] "@ + w.url
        + " | Keywords: "@ + crate::text::join_with_sep(w.keywords, ", "@) + " | Every "@
        + crate::numbers::dec_digits((w.check_interval / 60) as nat) + " min"@
}

impl UiState {
    /// Renders the list screen's line for the watcher at `index`.
    pub fn watcher_list_line(&self, index: usize) -> (r: String)
        requires
            index < self.config@.len(),
            index < usize::MAX,
        ensures
            r@ == list_line_of(self.config@[index as int], index as int),
    {
        let w = &self.config.watchers[index];
        let mut out: Vec<char> = if w.enabled {
            chars_of("✓")
        } else {
            chars_of("✗")
        };
        let open_bracket = chars_of(" [");
        push_all(&mut out, open_bracket.as_slice());
        let position = crate::numbers::u64_to_dec_chars((index as u64) + 1);
        push_all(&mut out, position.as_slice());
        let close_bracket = chars_of("] ");
        push_all(&mut out, close_bracket.as_slice());
        let url = chars_of(w.url.as_str());
        push_all(&mut out, url.as_slice());
        let keywords_label = chars_of(" | Keywords: ");
        push_all(&mut out, keywords_label.as_slice());
        let joined = join_strings(&w.keywords, ", ");
        let joined_chars = chars_of(joined.as_str());
        push_all(&mut out, joined_chars.as_slice());
        let every_label = chars_of(" | Every ");
        push_all(&mut out, every_label.as_slice());
        let minutes = crate::numbers::u64_to_dec_chars(w.check_interval / 60);
        push_all(&mut out, minutes.as_slice());
        let tail = chars_of(" min");
        push_all(&mut out, tail.as_slice());
        proof {
            assert(self.config@[index as int].keywords =~= self.config.watchers@[
                index as int].keywords.deep_view());
            assert(out@ =~= list_line_of(self.config@[index as int], index as int));
        }
        string_from_chars(out.as_slice())
    }
}

// ---------------------------------------------------------------------
// Reading the service manager's status listing.
// ---------------------------------------------------------------------
/// The first position at or after `i` in `s` that holds whitespace.
pub open spec fn token_end(s: Seq<char>, i: int) -> int
    decreases s.len() - i,
    when 0 <= i
{
    if i >= s.len() || is_space_char(s[i]) {
        i
    } else {
        token_end(s, i + 1)
    }
}

/// The first whitespace-separated token of `line`; empty when the line
/// holds only whitespace.
pub open spec fn first_token(line: Seq<char>) -> Seq<char> {
    let t = trim_front(line);
    t.subrange(0, token_end(t, 0))
}

/// Whether a token is a decimal numeral in the signed 32-bit range, with
/// an optional sign.
pub open spec fn is_i32_numeral(t: Seq<char>) -> bool {
    if t.len() == 0 {
        false
    } else {
        let ds = if t[0] == '-' || t[0] == '+' {
            t.subrange(1, t.len() as int)
        } else {
            t
        };
        &&& ds.len() > 0
        &&& all_digits(ds)
        &&& (if t[0] == '-' {
            dec_val(ds) <= 0x8000_0000
        } else {
            dec_val(ds) <= 0x7fff_ffff
        })
    }
}

/// Whether a service status listing marks the service as running: some
/// line opens with a process number (a token that reads as a signed 32-bit
/// value) rather than a placeholder.
pub open spec fn status_indicates_running(out: Seq<char>) -> bool {
    exists|i: int|
        0 <= i < split_lines(out).len() && is_i32_numeral(
            first_token(#[trigger] split_lines(out)[i]),
        )
}

proof fn lemma_token_end_at(s: Seq<char>, i: int, e: int)
    requires
        0 <= i <= e <= s.len(),
        forall|k: int| i <= k < e ==> !is_space_char(#[trigger] s[k]),
        e == s.len() || is_space_char(s[e]),
    ensures
        token_end(s, i) == e,
    decreases e - i,
{
    if i < e {
        lemma_token_end_at(s, i + 1, e);
    }
}

/// The first whitespace-separated token of a line.
fn first_token_of(line: &[char]) -> (r: Vec<char>)
    ensures
        r@ == first_token(line@),
{
    let n = line.len();
    let mut lo: usize = 0;
    while lo < n && is_space(line[lo])
        invariant
            n == line@.len(),
            0 <= lo <= n,
            forall|j: int| 0 <= j < lo ==> is_space_char(line@[j]),
        decreases n - lo,
    {
        lo = lo + 1;
    }
    let mut hi: usize = lo;
    while hi < n && !is_space(line[hi])
        invariant
            n == line@.len(),
            lo <= hi <= n,
            forall|j: int| lo <= j < hi ==> !is_space_char(#[trigger] line@[j]),
        decreases n - hi,
    {
        hi = hi + 1;
    }
    let ghost t = trim_front(line@);
    proof {
        crate::text::lemma_trim_front_skip(line@, lo as int);
        let tail = line@.subrange(lo as int, n as int);
        if lo < n {
            assert(!is_space_char(tail[0]));
            assert(trim_front(tail) == tail);
        } else {
            assert(tail.len() == 0);
        }
        assert(t == tail);
        assert forall|k: int| 0 <= k < hi - lo implies !is_space_char(#[trigger] t[k]) by {
            assert(t[k] == line@[lo + k]);
        }
        if (hi as int) < n {
            assert(is_space_char(t[hi - lo]));
        }
        lemma_token_end_at(t, 0, hi - lo);
        assert(t.subrange(0, hi - lo) =~= line@.subrange(lo as int, hi as int));
    }
    let mut out: Vec<char> = Vec::new();
    push_all(&mut out, slice_range(line, lo, hi));
    proof {
        assert(out@ =~= line@.subrange(lo as int, hi as int));
    }
    out
}

/// Whether a token reads as a signed 32-bit decimal numeral.
fn is_i32_token(t: &[char]) -> (r: bool)
    ensures
        r == is_i32_numeral(t@),
{
    if t.len() == 0 {
        return false;
    }
    let c0 = t[0];
    let signed = c0 == '-' || c0 == '+';
    let ds_start: usize = if signed {
        1
    } else {
        0
    };
    let ds = slice_range(t, ds_start, t.len());
    proof {
        if !signed {
            assert(t@.subrange(0, t@.len() as int) =~= t@);
        }
    }
    if ds.len() == 0 {
        return false;
    }
    match parse_u64_digits(ds) {
        None => false,
        Some(v) => if c0 == '-' {
            v <= 2147483648
        } else {
            v <= 2147483647
        },
    }
}

/// Reads a service manager status listing: the service counts as running
/// when some line opens with a process number.
pub fn service_running_from_status(output: &str) -> (r: bool)
    ensures
        r == status_indicates_running(output@),
{
    let cs = chars_of(output);
    let lines = crate::text::split_all(cs.as_slice(), '\n');
    let ghost line_views = lines@.map_values(|l: Vec<char>| l@);
    let mut i: usize = 0;
    while i < lines.len()
        invariant
            line_views == lines@.map_values(|l: Vec<char>| l@),
            line_views == split_lines(output@),
            line_views.len() == lines@.len(),
            0 <= i <= lines@.len(),
            forall|j: int|
                0 <= j < i ==> !is_i32_numeral(first_token(#[trigger] line_views[j])),
        decreases lines@.len() - i,
    {
        let tok = first_token_of(lines[i].as_slice());
        if is_i32_token(tok.as_slice()) {
            proof {
                assert(is_i32_numeral(first_token(line_views[i as int])));
            }
            return true;
        }
        i = i + 1;
    }
    false
}

} // verus!
