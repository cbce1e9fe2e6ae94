//! The application state: the active mode, the focused panel, the catalog
//! cursors, the search state, the scroll regions, the multi-select set and
//! the execution queue, together with the invariant that ties them.

use vstd::prelude::*;

use crate::catalog::catalog_wf;
use crate::catalog::collect_entries;
use crate::catalog::entries_view;
use crate::catalog::flat_entries;
use crate::catalog::Catalog;
use crate::catalog::CategoryEntryV;
use crate::catalog::ScriptEntry;
use crate::catalog::ScriptEntryV;
use crate::multi_select::paths_view;
use crate::multi_select::MultiSelect;
use crate::scroll::ScrollRegion;
use crate::search::results_ok;
use crate::search::results_view;
use crate::search::search_entries;
use crate::search::SearchResult;

verus! {

/// How many themes the interface cycles through.
pub const THEME_COUNT: usize = 4;

/// The mutually exclusive interaction modes; exactly one is active.
#[derive(Clone, Copy, PartialEq, Eq, Structural, Debug)]
pub enum AppMode {
    Normal,
    Search,
    Preview,
    Confirm,
    Help,
    Description,
    RunScript,
    RootWarning,
}

/// Which of the two catalog panels holds the cursor.
#[derive(Clone, Copy, PartialEq, Eq, Structural, Debug)]
pub enum FocusedPanel {
    Categories,
    Scripts,
}

/// What the core asks the logging collaborator to record. The core only
/// decides when a line is owed; the sink renders the words.
#[derive(Clone, Copy, PartialEq, Eq, Structural, Debug)]
pub enum LogEvent {
    SearchSelected,
    ConfirmedMulti { count: usize },
    ConfirmedSingle,
    Cancelled,
}

/// The category panel: names in catalog order plus a cursor.
pub struct CategoryList {
    pub items: Vec<Vec<u8>>,
    pub selected: Option<usize>,
}

/// The script panel: the scripts of the selected category plus a cursor.
pub struct ScriptList {
    pub items: Vec<ScriptEntry>,
    pub selected: Option<usize>,
}

/// The search popup's state: the query, its cursor, the ranked results,
/// the highlighted result, and the pending autocomplete suggestion.
pub struct SearchState {
    pub input: Vec<u8>,
    pub cursor_position: usize,
    pub results: Vec<SearchResult>,
    pub selected_idx: usize,
    pub autocomplete: Option<Vec<u8>>,
}

/// The names of the catalog's categories, in order.
pub open spec fn cat_names(cats: Seq<CategoryEntryV>) -> Seq<Seq<u8>> {
    cats.map_values(|c: CategoryEntryV| c.name)
}

/// The whole interaction state. One value of this type drives the
/// process; input handlers mutate it in place.
pub struct App {
    pub mode: AppMode,
    pub focused_panel: FocusedPanel,
    pub quit: bool,
    pub log_mode: bool,
    pub log: Vec<LogEvent>,
    pub theme_locked: bool,
    pub theme_index: usize,
    pub catalog: Catalog,
    pub entries: Vec<ScriptEntry>,
    pub categories: CategoryList,
    pub scripts: ScriptList,
    pub search: SearchState,
    pub preview: ScrollRegion,
    pub help: ScrollRegion,
    pub description: ScrollRegion,
    pub preview_content: Option<Vec<u8>>,
    pub description_content: Option<Vec<u8>>,
    pub multi_select: MultiSelect,
    pub script_execution_queue: Vec<Vec<u8>>,
    pub pending_launch: Option<Vec<u8>>,
}

impl App {
    /// The catalog's entries in catalog order; the domain of the search.
    pub open spec fn entries_v(self) -> Seq<ScriptEntryV> {
        flat_entries(self.catalog@)
    }

    /// The execution queue as a sequence of paths.
    pub open spec fn queue_v(self) -> Seq<Seq<u8>> {
        paths_view(self.script_execution_queue@)
    }

    /// The search state's own invariant, relative to the searched entries.
    pub open spec fn search_wf(self) -> bool {
        &&& self.search.cursor_position <= self.search.input@.len()
        &&& results_ok(self.entries_v(), self.search.input@, results_view(self.search.results@))
        &&& self.search.results@.len() <= self.entries_v().len()
        &&& (self.search.results@.len() == 0 ==> self.search.selected_idx == 0)
        &&& (self.search.results@.len() > 0 ==> self.search.selected_idx
            < self.search.results@.len())
        &&& match self.search.autocomplete {
            Some(s) => {
                &&& self.search.results@.len() > 0
                &&& s@ == crate::catalog::display_of(
                    results_view(self.search.results@)[0].item,
                )
                &&& crate::ascii::is_strict_prefix_of(
                    crate::ascii::fold(self.search.input@),
                    crate::ascii::fold(s@),
                )
            },
            None => true,
        }
    }

    /// The well-formedness invariant of the whole state: the constructor
    /// establishes it and every handler preserves it.
    pub open spec fn wf(self) -> bool {
        &&& catalog_wf(self.catalog@)
        &&& entries_view(self.entries@) == flat_entries(self.catalog@)
        &&& paths_view(self.categories.items@) == cat_names(self.catalog@)
        &&& match self.categories.selected {
            Some(i) => i < self.categories.items@.len(),
            None => self.categories.items@.len() == 0,
        }
        &&& match self.categories.selected {
            Some(c) => entries_view(self.scripts.items@) == self.catalog@[c as int].scripts,
            None => self.scripts.items@.len() == 0,
        }
        &&& match self.scripts.selected {
            Some(i) => i < self.scripts.items@.len(),
            None => true,
        }
        &&& (self.scripts.items@.len() == 0 ==> self.scripts.selected is None)
        &&& self.search_wf()
        &&& self.preview.wf()
        &&& self.help.wf()
        &&& self.description.wf()
        &&& self.multi_select.wf()
        &&& self.theme_index < THEME_COUNT
    }

    /// The path of the script under the cursor, if any.
    pub open spec fn targeted_path(self) -> Option<Seq<u8>> {
        match self.scripts.selected {
            Some(i) => if i < self.scripts.items@.len() {
                Some(self.scripts.items@[i as int]@.path)
            } else {
                None
            },
            None => None,
        }
    }

    /// A confirmation is legal: the script panel is focused, a script is
    /// under the cursor, and a non-empty selection exists when
    /// multi-select is enabled.
    pub open spec fn confirm_ready(self) -> bool {
        &&& self.focused_panel == FocusedPanel::Scripts
        &&& self.scripts.selected is Some
        &&& !(self.multi_select.enabled && self.multi_select.scripts@.len() == 0)
    }

    /// Builds the startup state for a loaded catalog: `Normal` mode, the
    /// category panel focused with the first category selected, the
    /// scripts of that category listed, and an empty-query search over
    /// the whole catalog.
    pub fn new(catalog: Catalog, log_mode: bool, theme_locked: bool) -> (r: App)
        requires
            catalog_wf(catalog@),
        ensures
            r.wf(),
            r.mode == AppMode::Normal,
            r.focused_panel == FocusedPanel::Categories,
            r.quit == false,
            r.log_mode == log_mode,
            r.log@.len() == 0,
            r.theme_locked == theme_locked,
            r.theme_index == 0,
            r.catalog@ == catalog@,
            r.categories.selected == (if catalog@.len() > 0 {
                Some(0usize)
            } else {
                None
            }),
            r.scripts.selected is None,
            r.search.input@.len() == 0,
            r.search.cursor_position == 0,
            r.search.selected_idx == 0,
            r.search.autocomplete is None,
            r.multi_select.enabled == false,
            r.multi_select.scripts@.len() == 0,
            r.queue_v().len() == 0,
            r.pending_launch is None,
            r.preview.scroll == 0 && r.help.scroll == 0 && r.description.scroll == 0,
    {
        let mut names: Vec<Vec<u8>> = Vec::new();
        let mut i: usize = 0;
        while i < catalog.categories.len()
            invariant
                i <= catalog.categories@.len(),
                paths_view(names@) == cat_names(catalog@.take(i as int)),
            decreases catalog.categories@.len() - i,
        {
            let n = catalog.categories[i].name.clone();
            let ghost prev = names@;
            let ghost nsnap = n;
            names.push(n);
            proof {
                crate::multi_select::lemma_paths_view_push(prev, nsnap);
                assert(paths_view(names@) =~= cat_names(catalog@.take(i + 1)));
            }
            i += 1;
        }
        proof {
            assert(catalog@.take(catalog.categories@.len() as int) =~= catalog@);
        }
        let selected: Option<usize> = if catalog.categories.len() > 0 {
            Some(0)
        } else {
            None
        };
        let scripts_items: Vec<ScriptEntry> = if catalog.categories.len() > 0 {
            clone_scripts(&catalog, 0)
        } else {
            Vec::new()
        };
        let entries = collect_entries(&catalog);
        let empty_query: Vec<u8> = Vec::new();
        let results = search_entries(&entries, &empty_query);
        App {
            mode: AppMode::Normal,
            focused_panel: FocusedPanel::Categories,
            quit: false,
            log_mode,
            log: Vec::new(),
            theme_locked,
            theme_index: 0,
            catalog,
            entries,
            categories: CategoryList { items: names, selected },
            scripts: ScriptList { items: scripts_items, selected: None },
            search: SearchState {
                input: empty_query,
                cursor_position: 0,
                results,
                selected_idx: 0,
                autocomplete: None,
            },
            preview: ScrollRegion::new(),
            help: ScrollRegion::new(),
            description: ScrollRegion::new(),
            preview_content: None,
            description_content: None,
            multi_select: MultiSelect::new(),
            script_execution_queue: Vec::new(),
            pending_launch: None,
        }
    }
}

/// Clones the scripts of category `c`, preserving their order.
pub fn clone_scripts(catalog: &Catalog, c: usize) -> (r: Vec<ScriptEntry>)
    requires
        c < catalog@.len(),
    ensures
        entries_view(r@) == catalog@[c as int].scripts,
{
    let list = &catalog.categories[c];
    let mut r: Vec<ScriptEntry> = Vec::new();
    let mut k: usize = 0;
    while k < list.scripts.len()
        invariant
            k <= list.scripts@.len(),
            c < catalog@.len(),
            list == &catalog.categories[c as int],
            entries_view(r@) == catalog@[c as int].scripts.take(k as int),
        decreases list.scripts@.len() - k,
    {
        let e = list.scripts[k].clone_entry();
        let ghost prev = r@;
        let ghost esnap = e;
        assert(e@ == catalog@[c as int].scripts[k as int]);
        r.push(e);
        proof {
            crate::catalog::lemma_entries_view_push(prev, esnap);
            assert(entries_view(r@) =~= catalog@[c as int].scripts.take(k + 1));
        }
        k += 1;
    }
    proof {
        let cc = c as int;
        assert(catalog@[cc].scripts.take(list.scripts@.len() as int) =~= catalog@[cc].scripts);
    }
    r
}

/// Clones a list of paths, preserving order.
pub fn clone_paths(v: &Vec<Vec<u8>>) -> (r: Vec<Vec<u8>>)
    ensures
        paths_view(r@) == paths_view(v@),
{
    let mut r: Vec<Vec<u8>> = Vec::new();
    let mut i: usize = 0;
    while i < v.len()
        invariant
            i <= v@.len(),
            paths_view(r@) == paths_view(v@).take(i as int),
        decreases v@.len() - i,
    {
        let p = v[i].clone();
        let ghost prev = r@;
        let ghost psnap = p;
        r.push(p);
        proof {
            crate::multi_select::lemma_paths_view_push(prev, psnap);
            assert(paths_view(r@) =~= paths_view(v@).take(i + 1));
        }
        i += 1;
    }
    proof {
        assert(paths_view(v@).take(v@.len() as int) =~= paths_view(v@));
    }
    r
}

/// A pending autocomplete suggestion always has the current query as a
/// strict case-insensitive prefix.
pub proof fn lemma_suggestion_is_prefix(a: App)
    requires
        a.wf(),
        a.search.autocomplete is Some,
    ensures
        crate::ascii::is_strict_prefix_of(
            crate::ascii::fold(a.search.input@),
            crate::ascii::fold(a.search.autocomplete->0@),
        ),
{
}

/// An entry of the catalog appears in the current results exactly when
/// the query's characters, case-insensitively, form a subsequence of the
/// entry's display string; the rank order and scores are pinned the same
/// way by `results_ok` in the invariant.
pub proof fn lemma_results_membership(a: App, i: int)
    requires
        a.wf(),
        0 <= i < a.entries_v().len(),
    ensures
        crate::search::entry_matches(a.search.input@, a.entries_v()[i])
            <==> crate::search::pos_present(results_view(a.search.results@), i),
{
    if crate::search::entry_matches(a.search.input@, a.entries_v()[i]) {
        let w = choose|j: int|
            0 <= j < results_view(a.search.results@).len() && #[trigger] results_view(
                a.search.results@,
            )[j].pos == i;
        assert(crate::search::pos_present(results_view(a.search.results@), i));
    }
    if crate::search::pos_present(results_view(a.search.results@), i) {
        let w = choose|k: int|
            0 <= k < results_view(a.search.results@).len() && (#[trigger] results_view(
                a.search.results@,
            )[k]).pos == i;
        assert(results_view(a.search.results@)[w].pos == i);
    }
}

} // verus!
