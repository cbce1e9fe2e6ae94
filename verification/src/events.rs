//! Input events and the per-mode handlers: the mode state machine.
//!
//! Raw terminal events are translated by the host into the plain `Key`
//! and `MouseKind` values below; the handlers route them per mode and
//! mutate the state. Every (mode, event) pair has a defined outcome —
//! unknown events are ignored, never an error.

use vstd::prelude::*;

use crate::catalog::entries_view;
use crate::catalog::flat_entries;
use crate::multi_select::paths_view;
use crate::multi_select::toggle_spec;
use crate::scroll::ScrollRegion;
use crate::scroll::PAGE_STEP;
use crate::scroll::WHEEL_STEP;
use crate::search::next_idx;
use crate::search::prev_idx;
use crate::search::results_ok;
use crate::search::results_view;
use crate::search::search_entries;
use crate::search::compute_suggestion;
use crate::search::suggestion_spec;
use crate::state::App;
use crate::state::AppMode;
use crate::state::cat_names;
use crate::state::CategoryList;
use crate::state::FocusedPanel;
use crate::state::LogEvent;
use crate::state::ScriptList;
use crate::state::SearchState;
use crate::state::THEME_COUNT;

verus! {

/// A keyboard event, reduced to what the core reacts to. Printable keys
/// arrive as their ASCII byte.
#[derive(Clone, Copy, PartialEq, Eq, Structural, Debug)]
pub enum Key {
    Char(u8),
    Enter,
    Esc,
    Tab,
    Backspace,
    Left,
    Right,
    Up,
    Down,
    Home,
    End,
    PageUp,
    PageDown,
    Other,
}

/// A mouse event, reduced to the wheel directions the core reacts to.
#[derive(Clone, Copy, PartialEq, Eq, Structural, Debug)]
pub enum MouseKind {
    ScrollUp,
    ScrollDown,
    Other,
}

/// An optional cursor as a mathematical value.
pub open spec fn opt_v(o: Option<usize>) -> Option<int> {
    match o {
        Some(i) => Some(i as int),
        None => None,
    }
}

/// Where a wrapping step forward moves an optional cursor in a list of
/// `len` items: an empty list has no cursor, a missing cursor lands on 0.
pub open spec fn sel_after_next(sel: Option<usize>, len: int) -> Option<int> {
    if len <= 0 {
        None
    } else {
        match sel {
            Some(i) => Some(next_idx(i as int, len)),
            None => Some(0),
        }
    }
}

/// Where a wrapping step backward moves an optional cursor.
pub open spec fn sel_after_previous(sel: Option<usize>, len: int) -> Option<int> {
    if len <= 0 {
        None
    } else {
        match sel {
            Some(i) => Some(prev_idx(i as int, len)),
            None => Some(len - 1),
        }
    }
}

/// After a wrapping step down on the focused panel.
pub open spec fn nav_next_post(o: App, f: App) -> bool {
    &&& (o.focused_panel == FocusedPanel::Categories ==> {
        &&& f == (App { categories: f.categories, scripts: f.scripts, ..o })
        &&& f.categories.items == o.categories.items
        &&& opt_v(f.categories.selected) == sel_after_next(
            o.categories.selected,
            o.categories.items@.len() as int,
        )
        &&& (o.categories.items@.len() > 0 ==> f.scripts.selected is None)
        &&& (o.categories.items@.len() == 0 ==> f.scripts == o.scripts)
    })
    &&& (o.focused_panel == FocusedPanel::Scripts ==> {
        &&& f == (App { scripts: f.scripts, ..o })
        &&& f.scripts.items == o.scripts.items
        &&& opt_v(f.scripts.selected) == sel_after_next(
            o.scripts.selected,
            o.scripts.items@.len() as int,
        )
    })
}

/// After a wrapping step up on the focused panel.
pub open spec fn nav_prev_post(o: App, f: App) -> bool {
    &&& (o.focused_panel == FocusedPanel::Categories ==> {
        &&& f == (App { categories: f.categories, scripts: f.scripts, ..o })
        &&& f.categories.items == o.categories.items
        &&& opt_v(f.categories.selected) == sel_after_previous(
            o.categories.selected,
            o.categories.items@.len() as int,
        )
        &&& (o.categories.items@.len() > 0 ==> f.scripts.selected is None)
        &&& (o.categories.items@.len() == 0 ==> f.scripts == o.scripts)
    })
    &&& (o.focused_panel == FocusedPanel::Scripts ==> {
        &&& f == (App { scripts: f.scripts, ..o })
        &&& f.scripts.items == o.scripts.items
        &&& opt_v(f.scripts.selected) == sel_after_previous(
            o.scripts.selected,
            o.scripts.items@.len() as int,
        )
    })
}

/// After a clamped jump to the first item of the focused panel.
pub open spec fn nav_top_post(o: App, f: App) -> bool {
    &&& (o.focused_panel == FocusedPanel::Categories ==> {
        &&& f == (App { categories: f.categories, scripts: f.scripts, ..o })
        &&& f.categories.items == o.categories.items
        &&& opt_v(f.categories.selected) == (if o.categories.items@.len() > 0 {
            Some(0int)
        } else {
            None
        })
        &&& (o.categories.items@.len() > 0 ==> f.scripts.selected is None)
        &&& (o.categories.items@.len() == 0 ==> f.scripts == o.scripts)
    })
    &&& (o.focused_panel == FocusedPanel::Scripts ==> {
        &&& f == (App { scripts: f.scripts, ..o })
        &&& f.scripts.items == o.scripts.items
        &&& opt_v(f.scripts.selected) == (if o.scripts.items@.len() > 0 {
            Some(0int)
        } else {
            opt_v(o.scripts.selected)
        })
    })
}

/// After a clamped jump to the last item of the focused panel.
pub open spec fn nav_bottom_post(o: App, f: App) -> bool {
    &&& (o.focused_panel == FocusedPanel::Categories ==> {
        &&& f == (App { categories: f.categories, scripts: f.scripts, ..o })
        &&& f.categories.items == o.categories.items
        &&& opt_v(f.categories.selected) == (if o.categories.items@.len() > 0 {
            Some(o.categories.items@.len() - 1)
        } else {
            None
        })
        &&& (o.categories.items@.len() > 0 ==> f.scripts.selected is None)
        &&& (o.categories.items@.len() == 0 ==> f.scripts == o.scripts)
    })
    &&& (o.focused_panel == FocusedPanel::Scripts ==> {
        &&& f == (App { scripts: f.scripts, ..o })
        &&& f.scripts.items == o.scripts.items
        &&& opt_v(f.scripts.selected) == (if o.scripts.items@.len() > 0 {
            Some(o.scripts.items@.len() - 1)
        } else {
            opt_v(o.scripts.selected)
        })
    })
}

impl App {
    /// Repopulates the script panel from the selected category and clears
    /// its cursor.
    pub fn update_script_list(&mut self)
        requires
            match old(self).categories.selected {
                Some(c) => c < old(self).catalog@.len(),
                None => true,
            },
        ensures
            *final(self) == (App { scripts: final(self).scripts, ..*old(self) }),
            final(self).scripts.selected is None,
            match old(self).categories.selected {
                Some(c) => entries_view(final(self).scripts.items@) == old(self).catalog@[
                    c as int
                ].scripts,
                None => final(self).scripts.items@.len() == 0,
            },
    {
        match self.categories.selected {
            Some(c) => {
                let items = crate::state::clone_scripts(&self.catalog, c);
                self.scripts = ScriptList { items, selected: None };
            },
            None => {
                self.scripts = ScriptList { items: Vec::new(), selected: None };
            },
        }
    }

    /// The path of the script under the cursor, if any.
    pub fn get_script_path(&self) -> (r: Option<Vec<u8>>)
        ensures
            match r {
                Some(p) => self.targeted_path() == Some(p@),
                None => self.targeted_path() is None,
            },
    {
        match self.scripts.selected {
            Some(i) => if i < self.scripts.items.len() {
                Some(self.scripts.items[i].path.clone())
            } else {
                None
            },
            None => None,
        }
    }

    /// Re-runs the search for the current query: the result list is
    /// recomputed, the highlighted result resets to the top, and any
    /// pending suggestion is dropped until it is recomputed.
    pub fn perform_search(&mut self)
        requires
            entries_view(old(self).entries@) == flat_entries(old(self).catalog@),
        ensures
            *final(self) == (App { search: final(self).search, ..*old(self) }),
            final(self).search == (SearchState {
                results: final(self).search.results,
                selected_idx: 0usize,
                autocomplete: Option::<Vec<u8>>::None,
                ..old(self).search
            }),
            results_ok(
                flat_entries(old(self).catalog@),
                old(self).search.input@,
                results_view(final(self).search.results@),
            ),
            final(self).search.results@.len() <= flat_entries(old(self).catalog@).len(),
    {
        let results = search_entries(&self.entries, &self.search.input);
        self.search.results = results;
        self.search.selected_idx = 0;
        self.search.autocomplete = None;
    }

    /// Recomputes the autocomplete suggestion from the current results.
    pub fn update_autocomplete(&mut self)
        ensures
            *final(self) == (App { search: final(self).search, ..*old(self) }),
            final(self).search == (SearchState {
                autocomplete: final(self).search.autocomplete,
                ..old(self).search
            }),
            match final(self).search.autocomplete {
                Some(s) => suggestion_spec(
                    old(self).search.input@,
                    results_view(old(self).search.results@),
                ) == Some(s@),
                None => suggestion_spec(
                    old(self).search.input@,
                    results_view(old(self).search.results@),
                ) is None,
            },
    {
        let s = compute_suggestion(&self.search.results, &self.search.input);
        self.search.autocomplete = s;
    }

    /// Enters search mode with a fresh, empty query (whose results are
    /// the whole catalog), or leaves it back to `Normal`.
    pub fn toggle_search_mode(&mut self)
        requires
            old(self).wf(),
        ensures
            final(self).wf(),
            old(self).mode == AppMode::Search ==> *final(self) == (App {
                mode: AppMode::Normal,
                ..*old(self)
            }),
            old(self).mode != AppMode::Search ==> {
                &&& *final(self) == (App {
                    mode: AppMode::Search,
                    search: final(self).search,
                    ..*old(self)
                })
                &&& final(self).search.input@.len() == 0
                &&& final(self).search.cursor_position == 0
                &&& final(self).search.selected_idx == 0
                &&& final(self).search.autocomplete is None
                &&& results_ok(
                    old(self).entries_v(),
                    Seq::<u8>::empty(),
                    results_view(final(self).search.results@),
                )
            },
    {
        if self.mode == AppMode::Search {
            self.mode = AppMode::Normal;
        } else {
            self.search.input = Vec::new();
            self.search.cursor_position = 0;
            self.perform_search();
            self.mode = AppMode::Search;
            assert(final(self).search.input@ =~= Seq::<u8>::empty());
        }
    }

    /// Enters preview mode: the scroll resets and the content slot is
    /// cleared for the collaborator that loads the preview text.
    pub fn toggle_preview_mode(&mut self)
        requires
            old(self).wf(),
        ensures
            final(self).wf(),
            *final(self) == (App {
                mode: AppMode::Preview,
                preview: (ScrollRegion { scroll: 0, max_scroll: old(self).preview.max_scroll }),
                preview_content: Option::<Vec<u8>>::None,
                ..*old(self)
            }),
    {
        self.preview.to_top();
        self.preview_content = None;
        self.mode = AppMode::Preview;
    }

    /// Enters help mode with the help scroll reset to the top.
    pub fn toggle_help_mode(&mut self)
        requires
            old(self).wf(),
        ensures
            final(self).wf(),
            *final(self) == (App {
                mode: AppMode::Help,
                help: (ScrollRegion { scroll: 0, max_scroll: old(self).help.max_scroll }),
                ..*old(self)
            }),
    {
        self.help.to_top();
        self.mode = AppMode::Help;
    }

    /// Enters description mode: the scroll resets and the content slot is
    /// cleared for the collaborator that loads the description text.
    pub fn toggle_description_popup(&mut self)
        requires
            old(self).wf(),
        ensures
            final(self).wf(),
            *final(self) == (App {
                mode: AppMode::Description,
                description: (ScrollRegion {
                    scroll: 0,
                    max_scroll: old(self).description.max_scroll,
                }),
                description_content: Option::<Vec<u8>>::None,
                ..*old(self)
            }),
    {
        self.description.to_top();
        self.description_content = None;
        self.mode = AppMode::Description;
    }

    /// Toggles multi-select mode; leaving it clears the set.
    pub fn toggle_multi_select_mode(&mut self)
        requires
            old(self).wf(),
        ensures
            final(self).wf(),
            *final(self) == (App { multi_select: final(self).multi_select, ..*old(self) }),
            final(self).multi_select.enabled == !old(self).multi_select.enabled,
            old(self).multi_select.enabled ==> final(self).multi_select.scripts@.len() == 0,
            !old(self).multi_select.enabled ==> final(self).multi_select.scripts
                == old(self).multi_select.scripts,
    {
        if self.multi_select.enabled {
            self.multi_select.enabled = false;
            self.multi_select.clear();
        } else {
            self.multi_select.enabled = true;
        }
    }

    /// Toggles the targeted script's membership in the multi-select set.
    pub fn toggle_script_selection(&mut self)
        requires
            old(self).wf(),
        ensures
            final(self).wf(),
            *final(self) == (App { multi_select: final(self).multi_select, ..*old(self) }),
            final(self).multi_select.enabled == old(self).multi_select.enabled,
            match old(self).targeted_path() {
                Some(p) => paths_view(final(self).multi_select.scripts@) == toggle_spec(
                    paths_view(old(self).multi_select.scripts@),
                    p,
                ),
                None => final(self).multi_select == old(self).multi_select,
            },
    {
        let path = self.get_script_path();
        match path {
            Some(p) => {
                self.multi_select.toggle(&p);
            },
            None => {},
        }
    }

    /// Advances to the next theme unless the theme is locked by the host.
    pub fn cycle_theme(&mut self)
        requires
            old(self).wf(),
        ensures
            final(self).wf(),
            *final(self) == (App { theme_index: final(self).theme_index, ..*old(self) }),
            final(self).theme_index == next_idx(old(self).theme_index as int, THEME_COUNT as int),
    {
        if self.theme_index + 1 < THEME_COUNT {
            self.theme_index = self.theme_index + 1;
        } else {
            self.theme_index = 0;
        }
    }

    /// Moves the focused panel's cursor one step down, wrapping; moving
    /// the category cursor repopulates the script panel.
    pub fn next(&mut self)
        requires
            old(self).wf(),
        ensures
            final(self).wf(),
            nav_next_post(*old(self), *final(self)),
    {
        match self.focused_panel {
            FocusedPanel::Categories => {
                let len = self.categories.items.len();
                if len > 0 {
                    let ni: usize = match self.categories.selected {
                        Some(i) => if i + 1 < len {
                            i + 1
                        } else {
                            0
                        },
                        None => 0,
                    };
                    self.categories.selected = Some(ni);
                    proof {
                        assert(paths_view(old(self).categories.items@).len() == old(
                            self,
                        ).categories.items@.len());
                        assert(cat_names(old(self).catalog@).len() == old(self).catalog@.len());
                    }
                    self.update_script_list();
                }
            },
            FocusedPanel::Scripts => {
                let len = self.scripts.items.len();
                if len > 0 {
                    let ni: usize = match self.scripts.selected {
                        Some(i) => if i + 1 < len {
                            i + 1
                        } else {
                            0
                        },
                        None => 0,
                    };
                    self.scripts.selected = Some(ni);
                }
            },
        }
    }

    /// Moves the focused panel's cursor one step up, wrapping; moving
    /// the category cursor repopulates the script panel.
    pub fn previous(&mut self)
        requires
            old(self).wf(),
        ensures
            final(self).wf(),
            nav_prev_post(*old(self), *final(self)),
    {
        match self.focused_panel {
            FocusedPanel::Categories => {
                let len = self.categories.items.len();
                if len > 0 {
                    let ni: usize = match self.categories.selected {
                        Some(i) => if i > 0 {
                            i - 1
                        } else {
                            len - 1
                        },
                        None => len - 1,
                    };
                    self.categories.selected = Some(ni);
                    proof {
                        assert(paths_view(old(self).categories.items@).len() == old(
                            self,
                        ).categories.items@.len());
                        assert(cat_names(old(self).catalog@).len() == old(self).catalog@.len());
                    }
                    self.update_script_list();
                }
            },
            FocusedPanel::Scripts => {
                let len = self.scripts.items.len();
                if len > 0 {
                    let ni: usize = match self.scripts.selected {
                        Some(i) => if i > 0 {
                            i - 1
                        } else {
                            len - 1
                        },
                        None => len - 1,
                    };
                    self.scripts.selected = Some(ni);
                }
            },
        }
    }

    /// Moves the focused panel's cursor to the first item (no wrap).
    pub fn top(&mut self)
        requires
            old(self).wf(),
        ensures
            final(self).wf(),
            nav_top_post(*old(self), *final(self)),
    {
        match self.focused_panel {
            FocusedPanel::Categories => {
                if self.categories.items.len() > 0 {
                    self.categories.selected = Some(0);
                    proof {
                        assert(paths_view(old(self).categories.items@).len() == old(
                            self,
                        ).categories.items@.len());
                        assert(cat_names(old(self).catalog@).len() == old(self).catalog@.len());
                    }
                    self.update_script_list();
                }
            },
            FocusedPanel::Scripts => {
                if self.scripts.items.len() > 0 {
                    self.scripts.selected = Some(0);
                }
            },
        }
    }

    /// Moves the focused panel's cursor to the last item (no wrap).
    pub fn bottom(&mut self)
        requires
            old(self).wf(),
        ensures
            final(self).wf(),
            nav_bottom_post(*old(self), *final(self)),
    {
        match self.focused_panel {
            FocusedPanel::Categories => {
                let len = self.categories.items.len();
                if len > 0 {
                    self.categories.selected = Some(len - 1);
                    proof {
                        assert(paths_view(old(self).categories.items@).len() == old(
                            self,
                        ).categories.items@.len());
                        assert(cat_names(old(self).catalog@).len() == old(self).catalog@.len());
                    }
                    self.update_script_list();
                }
            },
            FocusedPanel::Scripts => {
                let len = self.scripts.items.len();
                if len > 0 {
                    self.scripts.selected = Some(len - 1);
                }
            },
        }
    }

    /// Takes the text and scroll bound the preview collaborator loaded.
    pub fn set_preview_content(&mut self, content: Vec<u8>, max_scroll: usize)
        requires
            old(self).wf(),
        ensures
            final(self).wf(),
            *final(self) == (App {
                preview: final(self).preview,
                preview_content: Some(content),
                ..*old(self)
            }),
            final(self).preview.max_scroll == max_scroll,
            final(self).preview.scroll == (if old(self).preview.scroll <= max_scroll {
                old(self).preview.scroll as int
            } else {
                max_scroll as int
            }),
    {
        self.preview_content = Some(content);
        self.preview.set_max_scroll(max_scroll);
    }

    /// Takes the text and scroll bound the description collaborator loaded.
    pub fn set_description_content(&mut self, content: Vec<u8>, max_scroll: usize)
        requires
            old(self).wf(),
        ensures
            final(self).wf(),
            *final(self) == (App {
                description: final(self).description,
                description_content: Some(content),
                ..*old(self)
            }),
            final(self).description.max_scroll == max_scroll,
            final(self).description.scroll == (if old(self).description.scroll <= max_scroll {
                old(self).description.scroll as int
            } else {
                max_scroll as int
            }),
    {
        self.description_content = Some(content);
        self.description.set_max_scroll(max_scroll);
    }

    /// Takes the scroll bound of the help text once the renderer knows it.
    pub fn set_help_max_scroll(&mut self, max_scroll: usize)
        requires
            old(self).wf(),
        ensures
            final(self).wf(),
            *final(self) == (App { help: final(self).help, ..*old(self) }),
            final(self).help.max_scroll == max_scroll,
            final(self).help.scroll == (if old(self).help.scroll <= max_scroll {
                old(self).help.scroll as int
            } else {
                max_scroll as int
            }),
    {
        self.help.set_max_scroll(max_scroll);
    }

    /// Enters the warning shown when the host runs with root privileges.
    pub fn show_root_warning(&mut self)
        requires
            old(self).wf(),
        ensures
            final(self).wf(),
            *final(self) == (App { mode: AppMode::RootWarning, ..*old(self) }),
    {
        self.mode = AppMode::RootWarning;
    }

    /// The launch popup reported that the running script finished: drain
    /// the next queued path into a fresh launch request, or return to
    /// `Normal` when the queue is empty.
    pub fn launch_finished(&mut self)
        requires
            old(self).wf(),
        ensures
            final(self).wf(),
            *final(self) == (App {
                mode: final(self).mode,
                script_execution_queue: final(self).script_execution_queue,
                pending_launch: final(self).pending_launch,
                ..*old(self)
            }),
            old(self).queue_v().len() > 0 ==> {
                &&& final(self).mode == AppMode::RunScript
                &&& final(self).queue_v() == old(self).queue_v().remove(0)
                &&& match final(self).pending_launch {
                    Some(p) => p@ == old(self).queue_v()[0],
                    None => false,
                }
            },
            old(self).queue_v().len() == 0 ==> {
                &&& final(self).mode == AppMode::Normal
                &&& final(self).queue_v() == old(self).queue_v()
                &&& final(self).pending_launch is None
            },
    {
        self.pending_launch = None;
        if self.script_execution_queue.len() > 0 {
            let ghost oldq = paths_view(self.script_execution_queue@);
            let head = self.script_execution_queue.remove(0);
            proof {
                assert(paths_view(self.script_execution_queue@) =~= oldq.remove(0));
            }
            self.pending_launch = Some(head);
            self.mode = AppMode::RunScript;
        } else {
            self.mode = AppMode::Normal;
        }
    }
}

/// After a wrapping step down in the result list: only the highlighted
/// index moves, cyclically; an empty list ignores the request.
pub open spec fn results_next_post(o: App, f: App) -> bool {
    &&& f == (App { search: f.search, ..o })
    &&& f.search == (SearchState { selected_idx: f.search.selected_idx, ..o.search })
    &&& (o.search.results@.len() > 0 ==> f.search.selected_idx == next_idx(
        o.search.selected_idx as int,
        o.search.results@.len() as int,
    ))
    &&& (o.search.results@.len() == 0 ==> f.search.selected_idx == o.search.selected_idx)
}

/// After a wrapping step up in the result list.
pub open spec fn results_prev_post(o: App, f: App) -> bool {
    &&& f == (App { search: f.search, ..o })
    &&& f.search == (SearchState { selected_idx: f.search.selected_idx, ..o.search })
    &&& (o.search.results@.len() > 0 ==> f.search.selected_idx == prev_idx(
        o.search.selected_idx as int,
        o.search.results@.len() as int,
    ))
    &&& (o.search.results@.len() == 0 ==> f.search.selected_idx == o.search.selected_idx)
}

/// After accepting the suggestion `s`: it becomes the query, the cursor
/// sits at its end, the search re-ran for it, and the slot is empty.
pub open spec fn accept_post(o: App, f: App, s: Seq<u8>) -> bool {
    &&& f == (App { search: f.search, ..o })
    &&& f.search.input@ == s
    &&& f.search.cursor_position == s.len()
    &&& f.search.selected_idx == 0
    &&& f.search.autocomplete is None
    &&& results_ok(o.entries_v(), s, results_view(f.search.results@))
}

/// After the query text changed to `q` with the cursor at `cur`: the
/// search re-ran, the highlight reset to the top, and the suggestion was
/// recomputed for the new query and results.
pub open spec fn edited_query_post(o: App, f: App, q: Seq<u8>, cur: int) -> bool {
    &&& f == (App { search: f.search, ..o })
    &&& f.search.input@ == q
    &&& f.search.cursor_position == cur
    &&& f.search.selected_idx == 0
    &&& results_ok(o.entries_v(), q, results_view(f.search.results@))
    &&& match f.search.autocomplete {
        Some(s) => suggestion_spec(q, results_view(f.search.results@)) == Some(s@),
        None => suggestion_spec(q, results_view(f.search.results@)) is None,
    }
}

/// After a query-cursor step right: the cursor moves toward the end, and
/// reaching the end with a pending suggestion accepts it.
pub open spec fn cursor_right_post(o: App, f: App) -> bool {
    ({
        let len = o.search.input@.len() as int;
        let nc: int = if o.search.cursor_position < len {
            o.search.cursor_position + 1
        } else {
            o.search.cursor_position as int
        };
        if nc == len && o.search.autocomplete is Some {
            accept_post(o, f, o.search.autocomplete->0@)
        } else {
            &&& f == (App { search: f.search, ..o })
            &&& f.search == (SearchState {
                cursor_position: f.search.cursor_position,
                ..o.search
            })
            &&& f.search.cursor_position == nc
        }
    })
}

/// After choosing the highlighted search result: back in `Normal` with
/// the script panel focused, the result's category and script under the
/// cursors, the preview reset, and a log line owed when logging is on.
pub open spec fn select_post(o: App, f: App) -> bool {
    &&& f == (App {
        mode: AppMode::Normal,
        focused_panel: FocusedPanel::Scripts,
        categories: f.categories,
        scripts: f.scripts,
        preview: (ScrollRegion { scroll: 0, max_scroll: o.preview.max_scroll }),
        preview_content: Option::<Vec<u8>>::None,
        log: f.log,
        ..o
    })
    &&& f.categories.items == o.categories.items
    &&& ({
        let e = results_view(o.search.results@)[o.search.selected_idx as int].item;
        &&& match f.categories.selected {
            Some(c) => c < o.catalog@.len() && o.catalog@[c as int].name == e.category,
            None => false,
        }
        &&& match f.categories.selected {
            Some(c) => entries_view(f.scripts.items@) == o.catalog@[c as int].scripts,
            None => false,
        }
        &&& match f.scripts.selected {
            Some(k) => k < f.scripts.items@.len() && f.scripts.items@[k as int]@.name == e.name,
            None => false,
        }
    })
    &&& f.log@ == (if o.log_mode {
        o.log@.push(LogEvent::SearchSelected)
    } else {
        o.log@
    })
}

/// After toggling multi-select mode.
pub open spec fn multi_toggle_post(o: App, f: App) -> bool {
    &&& f == (App { multi_select: f.multi_select, ..o })
    &&& f.multi_select.enabled == !o.multi_select.enabled
    &&& (o.multi_select.enabled ==> f.multi_select.scripts@.len() == 0)
    &&& (!o.multi_select.enabled ==> f.multi_select.scripts == o.multi_select.scripts)
}

/// After toggling the targeted script in the multi-select set.
pub open spec fn toggle_selection_post(o: App, f: App) -> bool {
    &&& f == (App { multi_select: f.multi_select, ..o })
    &&& f.multi_select.enabled == o.multi_select.enabled
    &&& match o.targeted_path() {
        Some(p) => paths_view(f.multi_select.scripts@) == toggle_spec(
            paths_view(o.multi_select.scripts@),
            p,
        ),
        None => f.multi_select == o.multi_select,
    }
}

/// After moving focus to the script panel from the category panel.
pub open spec fn focus_scripts_post(o: App, f: App) -> bool {
    &&& f == (App { focused_panel: FocusedPanel::Scripts, scripts: f.scripts, ..o })
    &&& f.scripts.items == o.scripts.items
    &&& (o.scripts.items@.len() > 0 ==> f.scripts.selected == Some(0usize))
    &&& (o.scripts.items@.len() == 0 ==> f.scripts.selected == o.scripts.selected)
}

/// After flipping in or out of search mode.
pub open spec fn toggle_search_post(o: App, f: App) -> bool {
    if o.mode == AppMode::Search {
        f == (App { mode: AppMode::Normal, ..o })
    } else {
        &&& f == (App { mode: AppMode::Search, search: f.search, ..o })
        &&& f.search.input@.len() == 0
        &&& f.search.cursor_position == 0
        &&& f.search.selected_idx == 0
        &&& f.search.autocomplete is None
        &&& results_ok(o.entries_v(), Seq::<u8>::empty(), results_view(f.search.results@))
    }
}

/// Keys that `Normal` mode ignores.
pub open spec fn normal_ignores(key: Key) -> bool {
    match key {
        Key::Char(c) => c != 113 && c != 106 && c != 107 && c != 104 && c != 108 && c != 47
            && c != 112 && c != 109 && c != 63 && c != 100 && c != 116 && c != 32,
        Key::Enter | Key::Esc | Key::Down | Key::Up | Key::Left | Key::Right | Key::Home
            | Key::End => false,
        _ => true,
    }
}

/// What one confirmation snapshots into the execution queue: a non-empty
/// multi-select set replaces the queue; otherwise the targeted path is
/// appended, if there is one.
pub open spec fn confirm_snapshot(o: App) -> Seq<Seq<u8>> {
    if o.multi_select.enabled && o.multi_select.scripts@.len() > 0 {
        paths_view(o.multi_select.scripts@)
    } else {
        match o.targeted_path() {
            Some(p) => o.queue_v().push(p),
            None => o.queue_v(),
        }
    }
}

/// The log lines a confirmation owes.
pub open spec fn confirm_log(o: App) -> Seq<LogEvent> {
    if !o.log_mode {
        o.log@
    } else if o.multi_select.enabled && o.multi_select.scripts@.len() > 0 {
        o.log@.push(LogEvent::ConfirmedMulti { count: o.multi_select.scripts@.len() as usize })
    } else {
        match o.targeted_path() {
            Some(p) => o.log@.push(LogEvent::ConfirmedSingle),
            None => o.log@,
        }
    }
}

/// After an affirmative answer in `Confirm`: the selection is snapshot
/// into the queue; a non-empty queue pops its head into a fresh launch
/// request and enters `RunScript`, an empty one returns to `Normal`. The
/// multi-select set itself is untouched.
pub open spec fn confirm_accept_post(o: App, f: App) -> bool {
    &&& f == (App {
        mode: f.mode,
        log: f.log,
        script_execution_queue: f.script_execution_queue,
        pending_launch: f.pending_launch,
        ..o
    })
    &&& f.log@ == confirm_log(o)
    &&& ({
        let snap = confirm_snapshot(o);
        if snap.len() > 0 {
            &&& f.mode == AppMode::RunScript
            &&& f.queue_v() == snap.remove(0)
            &&& match f.pending_launch {
                Some(p) => p@ == snap[0],
                None => false,
            }
        } else {
            &&& f.mode == AppMode::Normal
            &&& f.queue_v() == snap
            &&& f.pending_launch == o.pending_launch
        }
    })
}

impl App {
    /// Applies the highlighted search result: selects its category,
    /// repopulates and selects its script, returns to `Normal` with the
    /// script panel focused, and logs the selection when logging is on.
    pub fn select_search_result(&mut self)
        requires
            old(self).wf(),
            old(self).search.results@.len() > 0,
        ensures
            final(self).wf(),
            select_post(*old(self), *final(self)),
    {
        let si = self.search.selected_idx;
        let item = self.search.results[si].item.clone_entry();
        if self.log_mode {
            self.log.push(LogEvent::SearchSelected);
        }
        let ghost e = item@;
        let ghost cats = self.catalog@;
        proof {
            let rv = results_view(self.search.results@);
            assert(rv[si as int] == self.search.results@[si as int]@);
            let pos = rv[si as int].pos;
            assert(e == self.entries_v()[pos]);
            crate::catalog::lemma_flat_entry_origin(cats, pos);
            let (c, k) = choose|c: int, k: int|
                0 <= c < cats.len() && 0 <= k < cats[c].scripts.len() && flat_entries(cats)[pos]
                    == #[trigger] cats[c].scripts[k];
            assert(e == cats[c].scripts[k]);
            assert(exists|c: int, k: int|
                0 <= c < cats.len() && 0 <= k < cats[c].scripts.len() && e == #[trigger] cats[
                    c
                ].scripts[k]);
            assert(e.category == cats[c].name);
            assert(paths_view(self.categories.items@)[c] == cats[c].name);
        }
        let mut ci: usize = 0;
        while ci < self.categories.items.len() && !crate::ascii::bytes_eq(
            &self.categories.items[ci],
            &item.category,
        )
            invariant
                ci <= self.categories.items@.len(),
                item@ == e,
                forall|k: int|
                    0 <= k < ci ==> #[trigger] paths_view(self.categories.items@)[k] != e.category,
            decreases self.categories.items@.len() - ci,
        {
            ci += 1;
        }
        proof {
            if ci == self.categories.items.len() {
                let (c, k) = choose|c: int, k: int|
                    0 <= c < cats.len() && 0 <= k < cats[c].scripts.len() && e == #[trigger] cats[
                        c
                    ].scripts[k];
                assert(cats[c].scripts[k].category == cats[c].name);
                assert(e.category == cats[c].name);
                assert(paths_view(self.categories.items@) == crate::state::cat_names(cats));
                assert(crate::state::cat_names(cats)[c] == cats[c].name);
                assert(paths_view(self.categories.items@)[c] == e.category);
                assert(paths_view(self.categories.items@).len()
                    == self.categories.items@.len());
                assert(crate::state::cat_names(cats).len() == cats.len());
                assert(0 <= c < ci as int);
                assert(paths_view(self.categories.items@)[c] != e.category);
                assert(false);
            }
            assert(paths_view(self.categories.items@)[ci as int] == e.category);
            assert(cats[ci as int].name == e.category);
        }
        self.categories.selected = Some(ci);
        self.update_script_list();
        proof {
            // the found category is the entry's own category
            let (c, k) = choose|c: int, k: int|
                0 <= c < cats.len() && 0 <= k < cats[c].scripts.len() && e == #[trigger] cats[
                    c
                ].scripts[k];
            assert(cats[c].name == e.category);
            assert(c == ci as int);
            assert(entries_view(self.scripts.items@)[k] == e);
            assert(self.scripts.items@[k]@.name == e.name);
        }
        let mut ski: usize = 0;
        while ski < self.scripts.items.len() && !crate::ascii::bytes_eq(
            &self.scripts.items[ski].name,
            &item.name,
        )
            invariant
                ski <= self.scripts.items@.len(),
                item@ == e,
                forall|k: int| 0 <= k < ski ==> #[trigger] self.scripts.items@[k]@.name != e.name,
            decreases self.scripts.items@.len() - ski,
        {
            ski += 1;
        }
        proof {
            if ski == self.scripts.items.len() {
                let (c, k) = choose|c: int, k: int|
                    0 <= c < cats.len() && 0 <= k < cats[c].scripts.len() && e == #[trigger] cats[
                        c
                    ].scripts[k];
                assert(self.scripts.items@[k]@.name == e.name);
                assert(false);
            }
        }
        self.scripts.selected = Some(ski);
        self.preview.to_top();
        self.preview_content = None;
        self.mode = AppMode::Normal;
        self.focused_panel = FocusedPanel::Scripts;
    }

    /// Handles a key in search mode: editing the query, navigating and
    /// choosing results, accepting the suggestion, or leaving the mode.
    pub fn handle_search_input(&mut self, key: Key)
        requires
            old(self).wf(),
        ensures
            final(self).wf(),
            search_mode_post(*old(self), *final(self), key),
    {
        if key == Key::Esc {
            self.discard_query();
            self.mode = AppMode::Normal;
        } else if key == Key::Enter {
            if self.search.results.len() > 0 {
                self.select_search_result();
            }
        } else if key == Key::Down {
            let len = self.search.results.len();
            if len > 0 {
                let i = self.search.selected_idx;
                self.search.selected_idx = if i + 1 < len {
                    i + 1
                } else {
                    0
                };
            }
        } else if key == Key::Up {
            let len = self.search.results.len();
            if len > 0 {
                let i = self.search.selected_idx;
                self.search.selected_idx = if i > 0 {
                    i - 1
                } else {
                    len - 1
                };
            }
        } else if key == Key::Tab {
            self.accept_suggestion();
        } else if key == Key::Backspace {
            self.delete_query_char();
        } else if key == Key::Left {
            if self.search.cursor_position > 0 {
                self.search.cursor_position = self.search.cursor_position - 1;
            }
            self.search.autocomplete = None;
        } else if key == Key::Right {
            if self.search.cursor_position < self.search.input.len() {
                self.search.cursor_position = self.search.cursor_position + 1;
            }
            if self.search.cursor_position == self.search.input.len() {
                self.accept_suggestion();
            }
        } else {
            match key {
                Key::Char(c) => {
                    self.insert_query_char(c);
                },
                _ => {},
            }
        }
    }

    /// Empties the query and re-runs the (then unrestricted) search.
    pub fn discard_query(&mut self)
        requires
            old(self).wf(),
        ensures
            final(self).wf(),
            *final(self) == (App { search: final(self).search, ..*old(self) }),
            final(self).search.input@.len() == 0,
            final(self).search.cursor_position == 0,
            final(self).search.selected_idx == 0,
            final(self).search.autocomplete is None,
            results_ok(
                old(self).entries_v(),
                Seq::<u8>::empty(),
                results_view(final(self).search.results@),
            ),
    {
        self.search.input = Vec::new();
        self.search.cursor_position = 0;
        self.perform_search();
        assert(final(self).search.input@ =~= Seq::<u8>::empty());
    }

    /// Consumes a pending suggestion: it becomes the query, the cursor
    /// moves to its end, and the search re-runs; without one, a no-op.
    pub fn accept_suggestion(&mut self)
        requires
            old(self).wf(),
        ensures
            final(self).wf(),
            match old(self).search.autocomplete {
                Some(s) => accept_post(*old(self), *final(self), s@),
                None => *final(self) == *old(self),
            },
    {
        let acc: Option<Vec<u8>> = match &self.search.autocomplete {
            Some(s) => Some(s.clone()),
            None => None,
        };
        match acc {
            Some(s) => {
                let end = s.len();
                self.search.input = s;
                self.search.cursor_position = end;
                self.perform_search();
            },
            None => {},
        }
    }

    /// Appends one byte to the query and re-runs search and suggestion.
    pub fn insert_query_char(&mut self, c: u8)
        requires
            old(self).wf(),
        ensures
            final(self).wf(),
            edited_query_post(
                *old(self),
                *final(self),
                old(self).search.input@.push(c),
                old(self).search.cursor_position + 1,
            ),
    {
        self.search.input.push(c);
        let nl = self.search.input.len();
        assert(self.search.cursor_position < nl);
        self.search.cursor_position = self.search.cursor_position + 1;
        self.perform_search();
        self.update_autocomplete();
    }

    /// Deletes the byte before the cursor, if any, and re-runs search
    /// and suggestion.
    pub fn delete_query_char(&mut self)
        requires
            old(self).wf(),
        ensures
            final(self).wf(),
            old(self).search.cursor_position > 0 ==> edited_query_post(
                *old(self),
                *final(self),
                old(self).search.input@.remove(old(self).search.cursor_position - 1),
                old(self).search.cursor_position - 1,
            ),
            old(self).search.cursor_position == 0 ==> *final(self) == *old(self),
    {
        if self.search.cursor_position > 0 {
            let at = self.search.cursor_position - 1;
            self.search.input.remove(at);
            self.search.cursor_position = at;
            self.perform_search();
            self.update_autocomplete();
        }
    }
}

impl App {
    /// Handles a key in `Normal` mode: navigation, focus changes, mode
    /// switches, multi-select, theme cycling, and quitting.
    pub fn handle_key_normal_mode(&mut self, key: Key)
        requires
            old(self).wf(),
        ensures
            final(self).wf(),
            normal_mode_post(*old(self), *final(self), key),
    {
        if key == Key::Char(113) {
            if self.multi_select.enabled {
                self.toggle_multi_select_mode();
            } else {
                self.quit = true;
            }
        } else if key == Key::Esc {
            if self.multi_select.enabled {
                self.toggle_multi_select_mode();
            }
        } else if key == Key::Char(106) || key == Key::Down {
            self.next();
        } else if key == Key::Char(107) || key == Key::Up {
            self.previous();
        } else if key == Key::Char(104) || key == Key::Left {
            self.focused_panel = FocusedPanel::Categories;
            self.scripts.selected = None;
        } else if key == Key::Char(108) || key == Key::Right {
            if self.focused_panel == FocusedPanel::Scripts {
                if self.scripts.selected.is_some() && !(self.multi_select.enabled
                    && self.multi_select.scripts.len() == 0) {
                    self.mode = AppMode::Confirm;
                }
            } else {
                self.focused_panel = FocusedPanel::Scripts;
                if self.scripts.items.len() > 0 {
                    self.scripts.selected = Some(0);
                }
            }
        } else if key == Key::Home {
            self.top();
        } else if key == Key::End {
            self.bottom();
        } else if key == Key::Char(47) {
            self.toggle_search_mode();
        } else if key == Key::Char(112) {
            self.toggle_preview_mode();
        } else if key == Key::Char(109) {
            self.toggle_multi_select_mode();
        } else if key == Key::Char(63) {
            self.toggle_help_mode();
        } else if key == Key::Char(100) {
            self.toggle_description_popup();
        } else if key == Key::Char(116) {
            if !self.theme_locked {
                self.cycle_theme();
            }
        } else if key == Key::Enter {
            if self.focused_panel == FocusedPanel::Scripts && self.scripts.selected.is_some()
                && !(self.multi_select.enabled && self.multi_select.scripts.len() == 0) {
                self.mode = AppMode::Confirm;
            }
        } else if key == Key::Char(32) {
            if self.multi_select.enabled {
                self.toggle_script_selection();
            }
        }
    }

    /// Handles a key in `Preview` mode: clamped scrolling, or leaving.
    pub fn handle_key_preview_mode(&mut self, key: Key)
        requires
            old(self).wf(),
        ensures
            final(self).wf(),
            preview_mode_post(*old(self), *final(self), key),
    {
        if key == Key::Char(113) || key == Key::Esc || key == Key::Char(112) || key == Key::Char(
            104,
        ) {
            self.mode = AppMode::Normal;
        } else if key == Key::Char(106) || key == Key::Down {
            self.preview.step_down(1);
        } else if key == Key::Char(107) || key == Key::Up {
            self.preview.step_up(1);
        } else if key == Key::PageDown {
            self.preview.step_down(PAGE_STEP);
        } else if key == Key::PageUp {
            self.preview.step_up(PAGE_STEP);
        } else if key == Key::Home {
            self.preview.to_top();
        } else if key == Key::End {
            self.preview.to_bottom();
        }
    }

    /// Handles a key in `Help` mode: clamped scrolling, or leaving with
    /// the scroll reset.
    pub fn handle_key_help_mode(&mut self, key: Key)
        requires
            old(self).wf(),
        ensures
            final(self).wf(),
            help_mode_post(*old(self), *final(self), key),
    {
        if key == Key::Esc || key == Key::Char(113) || key == Key::Char(63) {
            self.mode = AppMode::Normal;
            self.help.to_top();
        } else if key == Key::Char(106) || key == Key::Down {
            self.help.step_down(1);
        } else if key == Key::Char(107) || key == Key::Up {
            self.help.step_up(1);
        } else if key == Key::Home {
            self.help.to_top();
        } else if key == Key::End {
            self.help.to_bottom();
        } else if key == Key::PageDown {
            self.help.step_down(PAGE_STEP);
        } else if key == Key::PageUp {
            self.help.step_up(PAGE_STEP);
        }
    }

    /// Handles a key in `Description` mode: clamped scrolling, or leaving
    /// with the content dropped and the scroll reset.
    pub fn handle_key_description_mode(&mut self, key: Key)
        requires
            old(self).wf(),
        ensures
            final(self).wf(),
            description_mode_post(*old(self), *final(self), key),
    {
        if key == Key::Esc || key == Key::Char(113) || key == Key::Char(100) {
            self.mode = AppMode::Normal;
            self.description_content = None;
            self.description.to_top();
        } else if key == Key::Char(106) || key == Key::Down {
            self.description.step_down(1);
        } else if key == Key::Char(107) || key == Key::Up {
            self.description.step_up(1);
        }
    }

    /// Handles an affirmative or negative answer in `Confirm` mode.
    pub fn handle_key_confirmation_mode(&mut self, key: Key)
        requires
            old(self).wf(),
        ensures
            final(self).wf(),
            confirm_mode_post(*old(self), *final(self), key),
    {
        if key == Key::Char(121) || key == Key::Char(89) || key == Key::Char(108) || key
            == Key::Right {
            let multi_on = self.multi_select.enabled && self.multi_select.scripts.len() > 0;
            if self.log_mode {
                if multi_on {
                    let c = self.multi_select.scripts.len();
                    self.log.push(LogEvent::ConfirmedMulti { count: c });
                } else {
                    match self.get_script_path() {
                        Some(_p) => {
                            self.log.push(LogEvent::ConfirmedSingle);
                        },
                        None => {},
                    }
                }
            }
            if multi_on {
                let q = crate::state::clone_paths(&self.multi_select.scripts);
                self.script_execution_queue = q;
            } else {
                match self.get_script_path() {
                    Some(p) => {
                        let ghost oldq = self.script_execution_queue@;
                        let ghost psnap = p;
                        self.script_execution_queue.push(p);
                        proof {
                            crate::multi_select::lemma_paths_view_push(oldq, psnap);
                        }
                    },
                    None => {},
                }
            }
            if self.script_execution_queue.len() > 0 {
                let ghost snap = paths_view(self.script_execution_queue@);
                let head = self.script_execution_queue.remove(0);
                proof {
                    assert(paths_view(self.script_execution_queue@) =~= snap.remove(0));
                }
                self.pending_launch = Some(head);
                self.mode = AppMode::RunScript;
            } else {
                self.mode = AppMode::Normal;
            }
        } else if key == Key::Char(110) || key == Key::Char(78) || key == Key::Esc || key
            == Key::Char(104) || key == Key::Char(113) || key == Key::Left {
            if self.log_mode {
                self.log.push(LogEvent::Cancelled);
            }
            self.mode = AppMode::Normal;
        }
    }

    /// Routes a mouse-wheel event per mode: list navigation in `Normal`
    /// and `Search`, clamped scrolling in `Preview` and `Help`. The other
    /// modes ignore the wheel — deliberately so for `Description`, whose
    /// scrolling is key-driven only.
    pub fn handle_mouse(&mut self, kind: MouseKind)
        requires
            old(self).wf(),
        ensures
            final(self).wf(),
            kind == MouseKind::ScrollDown ==> match old(self).mode {
                AppMode::Normal => nav_next_post(*old(self), *final(self)),
                AppMode::Preview => scrolled_post(
                    *old(self),
                    *final(self),
                    Region::Preview,
                    WHEEL_STEP as int,
                ),
                AppMode::Search => results_next_post(*old(self), *final(self)),
                AppMode::Help => scrolled_post(
                    *old(self),
                    *final(self),
                    Region::Help,
                    WHEEL_STEP as int,
                ),
                _ => *final(self) == *old(self),
            },
            kind == MouseKind::ScrollUp ==> match old(self).mode {
                AppMode::Normal => nav_prev_post(*old(self), *final(self)),
                AppMode::Preview => scrolled_post(
                    *old(self),
                    *final(self),
                    Region::Preview,
                    -(WHEEL_STEP as int),
                ),
                AppMode::Search => results_prev_post(*old(self), *final(self)),
                AppMode::Help => scrolled_post(
                    *old(self),
                    *final(self),
                    Region::Help,
                    -(WHEEL_STEP as int),
                ),
                _ => *final(self) == *old(self),
            },
            kind == MouseKind::Other ==> *final(self) == *old(self),
    {
        if kind == MouseKind::ScrollDown {
            if self.mode == AppMode::Normal {
                self.next();
            } else if self.mode == AppMode::Preview {
                self.preview.step_down(WHEEL_STEP);
            } else if self.mode == AppMode::Search {
                let len = self.search.results.len();
                if len > 0 {
                    let i = self.search.selected_idx;
                    self.search.selected_idx = if i + 1 < len {
                        i + 1
                    } else {
                        0
                    };
                }
            } else if self.mode == AppMode::Help {
                self.help.step_down(WHEEL_STEP);
            }
        } else if kind == MouseKind::ScrollUp {
            if self.mode == AppMode::Normal {
                self.previous();
            } else if self.mode == AppMode::Preview {
                self.preview.step_up(WHEEL_STEP);
            } else if self.mode == AppMode::Search {
                let len = self.search.results.len();
                if len > 0 {
                    let i = self.search.selected_idx;
                    self.search.selected_idx = if i > 0 {
                        i - 1
                    } else {
                        len - 1
                    };
                }
            } else if self.mode == AppMode::Help {
                self.help.step_up(WHEEL_STEP);
            }
        }
    }

    /// Routes a key to the active mode's handler. `RunScript` keys belong
    /// to the launch popup, so the core ignores them; the root warning is
    /// dismissed by Enter, Esc or `q`.
    pub fn handle_key(&mut self, key: Key)
        requires
            old(self).wf(),
        ensures
            final(self).wf(),
            step_rel(*old(self), *final(self), key),
            old(self).mode == AppMode::Normal ==> normal_mode_post(*old(self), *final(self), key),
            old(self).mode == AppMode::Search ==> search_mode_post(*old(self), *final(self), key),
            old(self).mode == AppMode::Preview ==> preview_mode_post(
                *old(self),
                *final(self),
                key,
            ),
            old(self).mode == AppMode::Confirm ==> confirm_mode_post(
                *old(self),
                *final(self),
                key,
            ),
            old(self).mode == AppMode::Help ==> help_mode_post(*old(self), *final(self), key),
            old(self).mode == AppMode::Description ==> description_mode_post(
                *old(self),
                *final(self),
                key,
            ),
            old(self).mode == AppMode::RunScript ==> *final(self) == *old(self),
            old(self).mode == AppMode::RootWarning ==> (if key == Key::Enter || key == Key::Esc
                || key == Key::Char(113) {
                *final(self) == (App { mode: AppMode::Normal, ..*old(self) })
            } else {
                *final(self) == *old(self)
            }),
    {
        let m = self.mode;
        if m == AppMode::Normal {
            self.handle_key_normal_mode(key);
        } else if m == AppMode::Search {
            self.handle_search_input(key);
        } else if m == AppMode::Preview {
            self.handle_key_preview_mode(key);
        } else if m == AppMode::Confirm {
            self.handle_key_confirmation_mode(key);
        } else if m == AppMode::Help {
            self.handle_key_help_mode(key);
        } else if m == AppMode::Description {
            self.handle_key_description_mode(key);
        } else if m == AppMode::RootWarning {
            if key == Key::Enter || key == Key::Esc || key == Key::Char(113) {
                self.mode = AppMode::Normal;
            }
        }
    }
}

/// The scroll regions a key or wheel event can move.
#[derive(Clone, Copy, PartialEq, Eq, Structural, Debug)]
pub enum Region {
    Preview,
    Help,
    Description,
}

/// After a clamped scroll of `delta` (negative is up) on one region:
/// only that region's position moves, saturating at the bounds.
pub open spec fn scrolled_post(o: App, f: App, region: Region, delta: int) -> bool {
    ({
        let or = match region {
            Region::Preview => o.preview,
            Region::Help => o.help,
            Region::Description => o.description,
        };
        let fr = match region {
            Region::Preview => f.preview,
            Region::Help => f.help,
            Region::Description => f.description,
        };
        &&& match region {
            Region::Preview => f == (App { preview: f.preview, ..o }),
            Region::Help => f == (App { help: f.help, ..o }),
            Region::Description => f == (App { description: f.description, ..o }),
        }
        &&& fr.max_scroll == or.max_scroll
        &&& (delta >= 0 ==> fr.scroll == (if or.scroll + delta <= or.max_scroll {
            or.scroll + delta
        } else {
            or.max_scroll as int
        }))
        &&& (delta < 0 ==> fr.scroll == (if or.scroll + delta >= 0 {
            or.scroll + delta
        } else {
            0int
        }))
    })
}

/// Keys that `Preview` mode ignores.
pub open spec fn preview_ignores(key: Key) -> bool {
    match key {
        Key::Char(c) => c != 113 && c != 112 && c != 104 && c != 106 && c != 107,
        Key::Esc | Key::Down | Key::Up | Key::PageDown | Key::PageUp | Key::Home | Key::End
            => false,
        _ => true,
    }
}

/// Keys that `Help` mode ignores.
pub open spec fn help_ignores(key: Key) -> bool {
    match key {
        Key::Char(c) => c != 113 && c != 63 && c != 106 && c != 107,
        Key::Esc | Key::Down | Key::Up | Key::PageDown | Key::PageUp | Key::Home | Key::End
            => false,
        _ => true,
    }
}

/// Keys that `Description` mode ignores.
pub open spec fn description_ignores(key: Key) -> bool {
    match key {
        Key::Char(c) => c != 113 && c != 100 && c != 106 && c != 107,
        Key::Esc | Key::Down | Key::Up => false,
        _ => true,
    }
}

/// The keys that answer a confirmation affirmatively.
pub open spec fn confirm_affirms(key: Key) -> bool {
    key == Key::Char(121) || key == Key::Char(89) || key == Key::Char(108) || key == Key::Right
}

/// The keys that answer a confirmation negatively.
pub open spec fn confirm_denies(key: Key) -> bool {
    key == Key::Char(110) || key == Key::Char(78) || key == Key::Esc || key == Key::Char(104)
        || key == Key::Char(113) || key == Key::Left
}

/// The full postcondition of the `Search`-mode handler for `key`,
/// relating the state before (`o`) and after (`f`) the call.
pub open spec fn search_mode_post(o: App, f: App, key: Key) -> bool {
    &&& (key == Key::Esc ==> {
                &&& f == (App {
                    mode: AppMode::Normal,
                    search: f.search,
                    ..o
                })
                &&& f.search.input@.len() == 0
                &&& f.search.cursor_position == 0
                &&& f.search.selected_idx == 0
                &&& f.search.autocomplete is None
                &&& results_ok(
                    o.entries_v(),
                    Seq::<u8>::empty(),
                    results_view(f.search.results@),
                )
            })
    &&& (key == Key::Enter ==> (if o.search.results@.len() > 0 {
                select_post(o, f)
            } else {
                f == o
            }))
    &&& (key == Key::Down ==> results_next_post(o, f))
    &&& (key == Key::Up ==> results_prev_post(o, f))
    &&& (key == Key::Tab ==> match o.search.autocomplete {
                Some(s) => accept_post(o, f, s@),
                None => f == o,
            })
    &&& (forall|c: u8|
                key == Key::Char(c) ==> edited_query_post(
                    o,
                    f,
                    o.search.input@.push(c),
                    o.search.cursor_position + 1,
                ))
    &&& (key == Key::Backspace ==> (if o.search.cursor_position > 0 {
                edited_query_post(
                    o,
                    f,
                    o.search.input@.remove(o.search.cursor_position - 1),
                    o.search.cursor_position - 1,
                )
            } else {
                f == o
            }))
    &&& (key == Key::Left ==> {
                &&& f == (App { search: f.search, ..o })
                &&& f.search == (SearchState {
                    cursor_position: f.search.cursor_position,
                    autocomplete: Option::<Vec<u8>>::None,
                    ..o.search
                })
                &&& f.search.cursor_position == (
                if o.search.cursor_position > 0 {
                    o.search.cursor_position - 1
                } else {
                    0int
                })
            })
    &&& (key == Key::Right ==> cursor_right_post(o, f))
    &&& ((key == Key::Home || key == Key::End || key == Key::PageUp || key == Key::PageDown
                || key == Key::Other) ==> f == o)
}

/// The full postcondition of the `Normal`-mode handler for `key`,
/// relating the state before (`o`) and after (`f`) the call.
pub open spec fn normal_mode_post(o: App, f: App, key: Key) -> bool {
    &&& (key == Key::Char(113) ==> (if o.multi_select.enabled {
                multi_toggle_post(o, f)
            } else {
                f == (App { quit: true, ..o })
            }))
    &&& (key == Key::Esc ==> (if o.multi_select.enabled {
                multi_toggle_post(o, f)
            } else {
                f == o
            }))
    &&& ((key == Key::Char(106) || key == Key::Down) ==> nav_next_post(
                o,
                f,
            ))
    &&& ((key == Key::Char(107) || key == Key::Up) ==> nav_prev_post(o, f))
    &&& ((key == Key::Char(104) || key == Key::Left) ==> {
                &&& f == (App {
                    focused_panel: FocusedPanel::Categories,
                    scripts: f.scripts,
                    ..o
                })
                &&& f.scripts.items == o.scripts.items
                &&& f.scripts.selected is None
            })
    &&& ((key == Key::Char(108) || key == Key::Right) ==> (
            if o.focused_panel == FocusedPanel::Scripts {
                if o.confirm_ready() {
                    f == (App { mode: AppMode::Confirm, ..o })
                } else {
                    f == o
                }
            } else {
                focus_scripts_post(o, f)
            }))
    &&& (key == Key::Home ==> nav_top_post(o, f))
    &&& (key == Key::End ==> nav_bottom_post(o, f))
    &&& (key == Key::Char(47) ==> toggle_search_post(o, f))
    &&& (key == Key::Char(112) ==> f == (App {
                mode: AppMode::Preview,
                preview: (ScrollRegion { scroll: 0, max_scroll: o.preview.max_scroll }),
                preview_content: Option::<Vec<u8>>::None,
                ..o
            }))
    &&& (key == Key::Char(109) ==> multi_toggle_post(o, f))
    &&& (key == Key::Char(63) ==> f == (App {
                mode: AppMode::Help,
                help: (ScrollRegion { scroll: 0, max_scroll: o.help.max_scroll }),
                ..o
            }))
    &&& (key == Key::Char(100) ==> f == (App {
                mode: AppMode::Description,
                description: (ScrollRegion {
                    scroll: 0,
                    max_scroll: o.description.max_scroll,
                }),
                description_content: Option::<Vec<u8>>::None,
                ..o
            }))
    &&& (key == Key::Char(116) ==> (if o.theme_locked {
                f == o
            } else {
                &&& f == (App { theme_index: f.theme_index, ..o })
                &&& f.theme_index == next_idx(
                    o.theme_index as int,
                    THEME_COUNT as int,
                )
            }))
    &&& (key == Key::Enter ==> (if o.confirm_ready() {
                f == (App { mode: AppMode::Confirm, ..o })
            } else {
                f == o
            }))
    &&& (key == Key::Char(32) ==> (if o.multi_select.enabled {
                toggle_selection_post(o, f)
            } else {
                f == o
            }))
    &&& (normal_ignores(key) ==> f == o)
}

/// The full postcondition of the `Preview`-mode handler for `key`,
/// relating the state before (`o`) and after (`f`) the call.
pub open spec fn preview_mode_post(o: App, f: App, key: Key) -> bool {
    &&& ((key == Key::Char(113) || key == Key::Esc || key == Key::Char(112) || key
                == Key::Char(104)) ==> f == (App { mode: AppMode::Normal, ..o }))
    &&& ((key == Key::Char(106) || key == Key::Down) ==> scrolled_post(
                o,
                f,
                Region::Preview,
                1,
            ))
    &&& ((key == Key::Char(107) || key == Key::Up) ==> scrolled_post(
                o,
                f,
                Region::Preview,
                -1,
            ))
    &&& (key == Key::PageDown ==> scrolled_post(
                o,
                f,
                Region::Preview,
                PAGE_STEP as int,
            ))
    &&& (key == Key::PageUp ==> scrolled_post(
                o,
                f,
                Region::Preview,
                -(PAGE_STEP as int),
            ))
    &&& (key == Key::Home ==> f == (App {
                preview: (ScrollRegion { scroll: 0, max_scroll: o.preview.max_scroll }),
                ..o
            }))
    &&& (key == Key::End ==> f == (App {
                preview: (ScrollRegion {
                    scroll: o.preview.max_scroll,
                    max_scroll: o.preview.max_scroll,
                }),
                ..o
            }))
    &&& (preview_ignores(key) ==> f == o)
}

/// The full postcondition of the `Help`-mode handler for `key`,
/// relating the state before (`o`) and after (`f`) the call.
pub open spec fn help_mode_post(o: App, f: App, key: Key) -> bool {
    &&& ((key == Key::Esc || key == Key::Char(113) || key == Key::Char(63)) ==> f
                == (App {
                mode: AppMode::Normal,
                help: (ScrollRegion { scroll: 0, max_scroll: o.help.max_scroll }),
                ..o
            }))
    &&& ((key == Key::Char(106) || key == Key::Down) ==> scrolled_post(
                o,
                f,
                Region::Help,
                1,
            ))
    &&& ((key == Key::Char(107) || key == Key::Up) ==> scrolled_post(
                o,
                f,
                Region::Help,
                -1,
            ))
    &&& (key == Key::Home ==> f == (App {
                help: (ScrollRegion { scroll: 0, max_scroll: o.help.max_scroll }),
                ..o
            }))
    &&& (key == Key::End ==> f == (App {
                help: (ScrollRegion {
                    scroll: o.help.max_scroll,
                    max_scroll: o.help.max_scroll,
                }),
                ..o
            }))
    &&& (key == Key::PageDown ==> scrolled_post(
                o,
                f,
                Region::Help,
                PAGE_STEP as int,
            ))
    &&& (key == Key::PageUp ==> scrolled_post(
                o,
                f,
                Region::Help,
                -(PAGE_STEP as int),
            ))
    &&& (help_ignores(key) ==> f == o)
}

/// The full postcondition of the `Description`-mode handler for `key`,
/// relating the state before (`o`) and after (`f`) the call.
pub open spec fn description_mode_post(o: App, f: App, key: Key) -> bool {
    &&& ((key == Key::Esc || key == Key::Char(113) || key == Key::Char(100)) ==> f
                == (App {
                mode: AppMode::Normal,
                description: (ScrollRegion {
                    scroll: 0,
                    max_scroll: o.description.max_scroll,
                }),
                description_content: Option::<Vec<u8>>::None,
                ..o
            }))
    &&& ((key == Key::Char(106) || key == Key::Down) ==> scrolled_post(
                o,
                f,
                Region::Description,
                1,
            ))
    &&& ((key == Key::Char(107) || key == Key::Up) ==> scrolled_post(
                o,
                f,
                Region::Description,
                -1,
            ))
    &&& (description_ignores(key) ==> f == o)
}

/// The full postcondition of the `Confirm`-mode handler for `key`,
/// relating the state before (`o`) and after (`f`) the call.
pub open spec fn confirm_mode_post(o: App, f: App, key: Key) -> bool {
    &&& (confirm_affirms(key) ==> confirm_accept_post(o, f))
    &&& (confirm_denies(key) ==> {
                &&& f == (App {
                    mode: AppMode::Normal,
                    log: f.log,
                    ..o
                })
                &&& f.log@ == (if o.log_mode {
                    o.log@.push(LogEvent::Cancelled)
                } else {
                    o.log@
                })
            })
    &&& ((!confirm_affirms(key) && !confirm_denies(key)) ==> f == o)
}

/// An optional byte string as a mathematical value.
pub open spec fn opt_bytes(o: Option<Vec<u8>>) -> Option<Seq<u8>> {
    match o {
        Some(v) => Some(v@),
        None => None,
    }
}

/// Two states are observably equal: every field agrees as a
/// mathematical value (heap containers compared by their views).
pub open spec fn obs_eq(a: App, b: App) -> bool {
    &&& a.mode == b.mode
    &&& a.focused_panel == b.focused_panel
    &&& a.quit == b.quit
    &&& a.log_mode == b.log_mode
    &&& a.log@ == b.log@
    &&& a.theme_locked == b.theme_locked
    &&& a.theme_index == b.theme_index
    &&& a.catalog@ == b.catalog@
    &&& entries_view(a.entries@) == entries_view(b.entries@)
    &&& paths_view(a.categories.items@) == paths_view(b.categories.items@)
    &&& a.categories.selected == b.categories.selected
    &&& entries_view(a.scripts.items@) == entries_view(b.scripts.items@)
    &&& a.scripts.selected == b.scripts.selected
    &&& a.search.input@ == b.search.input@
    &&& a.search.cursor_position == b.search.cursor_position
    &&& results_view(a.search.results@) == results_view(b.search.results@)
    &&& a.search.selected_idx == b.search.selected_idx
    &&& opt_bytes(a.search.autocomplete) == opt_bytes(b.search.autocomplete)
    &&& a.preview == b.preview
    &&& a.help == b.help
    &&& a.description == b.description
    &&& opt_bytes(a.preview_content) == opt_bytes(b.preview_content)
    &&& opt_bytes(a.description_content) == opt_bytes(b.description_content)
    &&& a.multi_select.enabled == b.multi_select.enabled
    &&& paths_view(a.multi_select.scripts@) == paths_view(b.multi_select.scripts@)
    &&& a.queue_v() == b.queue_v()
    &&& opt_bytes(a.pending_launch) == opt_bytes(b.pending_launch)
}

/// The one-step transition relation of the mode state machine: what
/// `handle_key` guarantees of the state after one key, for every mode.
/// It is total — every `(mode, key)` pair has a defined outcome — and
/// each clause pins the next state as a function of the state and key.
pub open spec fn step_rel(o: App, f: App, key: Key) -> bool {
    &&& f.wf()
    &&& match o.mode {
        AppMode::Normal => normal_mode_post(o, f, key),
        AppMode::Search => search_mode_post(o, f, key),
        AppMode::Preview => preview_mode_post(o, f, key),
        AppMode::Confirm => confirm_mode_post(o, f, key),
        AppMode::Help => help_mode_post(o, f, key),
        AppMode::Description => description_mode_post(o, f, key),
        AppMode::RunScript => f == o,
        AppMode::RootWarning => if key == Key::Enter || key == Key::Esc || key == Key::Char(
            113,
        ) {
            f == (App { mode: AppMode::Normal, ..o })
        } else {
            f == o
        },
    }
}

/// `opt_v` determines the optional cursor.
proof fn lemma_opt_v_injective(x: Option<usize>, y: Option<usize>)
    requires
        opt_v(x) == opt_v(y),
    ensures
        x == y,
{
    match (x, y) {
        (Some(i), Some(j)) => {
            assert(i as int == j as int);
        },
        _ => {},
    }
}

/// In well-formed states over the same catalog, the script panel's
/// contents are a function of the selected category.
proof fn lemma_scripts_view_from_wf(a: App, b: App)
    requires
        a.wf(),
        b.wf(),
        a.catalog@ == b.catalog@,
        a.categories.selected == b.categories.selected,
    ensures
        entries_view(a.scripts.items@) == entries_view(b.scripts.items@),
{
    match a.categories.selected {
        Some(c) => {},
        None => {
            assert(entries_view(a.scripts.items@).len() == a.scripts.items@.len());
            assert(entries_view(b.scripts.items@).len() == b.scripts.items@.len());
            assert(entries_view(a.scripts.items@) =~= entries_view(b.scripts.items@));
        },
    }
}

/// Two empty path lists have the same view.
proof fn lemma_empty_paths_view(a: Seq<Vec<u8>>, b: Seq<Vec<u8>>)
    requires
        a.len() == 0,
        b.len() == 0,
    ensures
        paths_view(a) == paths_view(b),
{
    assert(paths_view(a).len() == a.len());
    assert(paths_view(b).len() == b.len());
    assert(paths_view(a) =~= paths_view(b));
}

/// Choosing the highlighted result lands observably equal states in
/// observably equal states: the selected category and script indices are
/// forced by the catalog's unique names.
proof fn lemma_select_deterministic(o1: App, o2: App, f1: App, f2: App)
    requires
        o1.wf(),
        o2.wf(),
        f1.wf(),
        f2.wf(),
        obs_eq(o1, o2),
        o1.search.results@.len() > 0,
        select_post(o1, f1),
        select_post(o2, f2),
    ensures
        obs_eq(f1, f2),
{
    let e = results_view(o1.search.results@)[o1.search.selected_idx as int].item;
    assert(results_view(o2.search.results@)[o2.search.selected_idx as int].item == e);
    let c1 = f1.categories.selected->0 as int;
    let c2 = f2.categories.selected->0 as int;
    assert(o1.catalog@[c1].name == e.category && o1.catalog@[c2].name == e.category);
    assert(c1 == c2) by {
        if c1 != c2 {
            assert(o1.catalog@[c1].name != o1.catalog@[c2].name);
        }
    }
    assert(entries_view(f1.scripts.items@) == o1.catalog@[c1].scripts);
    assert(entries_view(f2.scripts.items@) == o1.catalog@[c1].scripts);
    let k1 = f1.scripts.selected->0 as int;
    let k2 = f2.scripts.selected->0 as int;
    assert(f1.scripts.items@[k1]@ == entries_view(f1.scripts.items@)[k1]);
    assert(f2.scripts.items@[k2]@ == entries_view(f2.scripts.items@)[k2]);
    assert(o1.catalog@[c1].scripts[k1].name == e.name && o1.catalog@[c1].scripts[k2].name
        == e.name);
    assert(k1 == k2) by {
        if k1 != k2 {
            assert(o1.catalog@[c1].scripts[k1].name != o1.catalog@[c1].scripts[k2].name);
        }
    }
}

/// One step of the machine is deterministic up to observable equality:
/// from observably equal well-formed states, the same key reaches
/// observably equal states. The recomputed result list is covered by
/// `lemma_results_unique`; everything else is pinned directly.
#[verifier::rlimit(100)]
#[verifier::spinoff_prover]
proof fn lemma_step_deterministic(o1: App, o2: App, f1: App, f2: App, key: Key)
    requires
        o1.wf(),
        o2.wf(),
        obs_eq(o1, o2),
        step_rel(o1, f1, key),
        step_rel(o2, f2, key),
    ensures
        obs_eq(f1, f2),
{
    let ev = o1.entries_v();
    assert(o2.entries_v() == ev);
    assert(o1.targeted_path() == o2.targeted_path()) by {
        match o1.scripts.selected {
            Some(i) => {
                assert(entries_view(o1.scripts.items@).len() == o1.scripts.items@.len());
                assert(entries_view(o2.scripts.items@).len() == o2.scripts.items@.len());
                if i < o1.scripts.items@.len() {
                    assert(o1.scripts.items@[i as int]@ == entries_view(o1.scripts.items@)[
                        i as int
                    ]);
                    assert(o2.scripts.items@[i as int]@ == entries_view(o2.scripts.items@)[
                        i as int
                    ]);
                }
            },
            None => {},
        }
    }
    match o1.mode {
        AppMode::Normal => {
            if key == Key::Char(47) {
                crate::search::lemma_results_unique(
                    ev,
                    Seq::<u8>::empty(),
                    results_view(f1.search.results@),
                    results_view(f2.search.results@),
                );
                assert(f1.search.input@ =~= f2.search.input@);
            }
            if (key == Key::Char(113) || key == Key::Esc || key == Key::Char(109))
                && o1.multi_select.enabled {
                lemma_empty_paths_view(f1.multi_select.scripts@, f2.multi_select.scripts@);
            }
            assert(paths_view(o1.categories.items@).len() == o1.categories.items@.len());
            assert(paths_view(o2.categories.items@).len() == o2.categories.items@.len());
            assert(entries_view(o1.scripts.items@).len() == o1.scripts.items@.len());
            assert(entries_view(o2.scripts.items@).len() == o2.scripts.items@.len());
            if key == Key::Char(106) || key == Key::Down || key == Key::Char(107) || key
                == Key::Up || key == Key::Home || key == Key::End {
                if o1.focused_panel == FocusedPanel::Categories {
                    lemma_opt_v_injective(f1.categories.selected, f2.categories.selected);
                    lemma_scripts_view_from_wf(f1, f2);
                    if o1.categories.items@.len() == 0 {
                        assert(f1.scripts == o1.scripts && f2.scripts == o2.scripts);
                    }
                } else {
                    lemma_opt_v_injective(f1.scripts.selected, f2.scripts.selected);
                }
            }
            assert(f1.mode == f2.mode);
            assert(f1.focused_panel == f2.focused_panel);
            assert(f1.quit == f2.quit);
            assert(f1.log@ == f2.log@);
            assert(f1.theme_index == f2.theme_index);
            assert(f1.catalog@ == f2.catalog@);
            assert(entries_view(f1.entries@) == entries_view(f2.entries@));
            assert(paths_view(f1.categories.items@) == paths_view(f2.categories.items@));
            assert(f1.categories.selected == f2.categories.selected);
            assert(entries_view(f1.scripts.items@) == entries_view(f2.scripts.items@));
            assert(f1.scripts.selected == f2.scripts.selected);
            assert(f1.search.input@ == f2.search.input@);
            assert(f1.search.cursor_position == f2.search.cursor_position);
            assert(results_view(f1.search.results@) == results_view(f2.search.results@));
            assert(f1.search.selected_idx == f2.search.selected_idx);
            assert(opt_bytes(f1.search.autocomplete) == opt_bytes(f2.search.autocomplete));
            assert(f1.preview == f2.preview && f1.help == f2.help);
            assert(f1.description == f2.description);
            assert(opt_bytes(f1.preview_content) == opt_bytes(f2.preview_content));
            assert(f1.multi_select.enabled == f2.multi_select.enabled);
            assert(paths_view(f1.multi_select.scripts@) == paths_view(f2.multi_select.scripts@));
            assert(f1.queue_v() == f2.queue_v());
            assert(opt_bytes(f1.pending_launch) == opt_bytes(f2.pending_launch));
            assert(obs_eq(f1, f2));
        },
        AppMode::Search => {
            if key == Key::Esc {
                crate::search::lemma_results_unique(
                    ev,
                    Seq::<u8>::empty(),
                    results_view(f1.search.results@),
                    results_view(f2.search.results@),
                );
                assert(f1.search.input@ =~= f2.search.input@);
            } else if key == Key::Enter {
                if o1.search.results@.len() > 0 {
                    lemma_select_deterministic(o1, o2, f1, f2);
                    lemma_scripts_view_from_wf(f1, f2);
                }
            } else if key == Key::Tab {
                match o1.search.autocomplete {
                    Some(s) => {
                        crate::search::lemma_results_unique(
                            ev,
                            s@,
                            results_view(f1.search.results@),
                            results_view(f2.search.results@),
                        );
                    },
                    None => {},
                }
            } else if key == Key::Right {
                let len = o1.search.input@.len() as int;
                let nc: int = if o1.search.cursor_position < len {
                    o1.search.cursor_position + 1
                } else {
                    o1.search.cursor_position as int
                };
                if nc == len && o1.search.autocomplete is Some {
                    let s = o1.search.autocomplete->0;
                    crate::search::lemma_results_unique(
                        ev,
                        s@,
                        results_view(f1.search.results@),
                        results_view(f2.search.results@),
                    );
                }
            } else {
                match key {
                    Key::Char(c) => {
                        crate::search::lemma_results_unique(
                            ev,
                            o1.search.input@.push(c),
                            results_view(f1.search.results@),
                            results_view(f2.search.results@),
                        );
                    },
                    Key::Backspace => {
                        if o1.search.cursor_position > 0 {
                            crate::search::lemma_results_unique(
                                ev,
                                o1.search.input@.remove(o1.search.cursor_position - 1),
                                results_view(f1.search.results@),
                                results_view(f2.search.results@),
                            );
                        }
                    },
                    _ => {},
                }
            }
            assert(obs_eq(f1, f2));
        },
        AppMode::Preview => {
            assert(obs_eq(f1, f2));
        },
        AppMode::Confirm => {
            assert(confirm_snapshot(o1) == confirm_snapshot(o2));
            assert(confirm_log(o1) == confirm_log(o2));
            assert(obs_eq(f1, f2));
        },
        AppMode::Help => {
            assert(obs_eq(f1, f2));
        },
        AppMode::Description => {
            assert(obs_eq(f1, f2));
        },
        AppMode::RunScript => {
            assert(obs_eq(f1, f2));
        },
        AppMode::RootWarning => {
            assert(obs_eq(f1, f2));
        },
    }
}

/// The machine can step from `o` to `f` through `keys`, one
/// `handle_key` transition per key.
pub open spec fn replay_rel(o: App, f: App, keys: Seq<Key>) -> bool
    decreases keys.len(),
{
    if keys.len() == 0 {
        f == o
    } else {
        exists|m: App| #[trigger] step_rel(o, m, keys.first()) && replay_rel(m, f, keys.drop_first())
    }
}

/// Replaying the identical key sequence from observably identical
/// well-formed start states always yields observably identical end
/// states: the machine consults no hidden input, and each step's outcome
/// is a function of the state and the key alone.
pub proof fn lemma_replay_deterministic(o1: App, o2: App, f1: App, f2: App, keys: Seq<Key>)
    requires
        o1.wf(),
        o2.wf(),
        obs_eq(o1, o2),
        replay_rel(o1, f1, keys),
        replay_rel(o2, f2, keys),
    ensures
        obs_eq(f1, f2),
    decreases keys.len(),
{
    if keys.len() == 0 {
    } else {
        let m1 = choose|m: App|
            #[trigger] step_rel(o1, m, keys.first()) && replay_rel(m, f1, keys.drop_first());
        let m2 = choose|m: App|
            #[trigger] step_rel(o2, m, keys.first()) && replay_rel(m, f2, keys.drop_first());
        lemma_step_deterministic(o1, o2, m1, m2, keys.first());
        lemma_replay_deterministic(m1, m2, f1, f2, keys.drop_first());
    }
}

} // verus!
