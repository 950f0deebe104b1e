//! The interactive menu's state: the flat list of menu entries built from a
//! configuration, the filtered view of it, the cursor, and the multi-select
//! set.  Key handling is a pure transition on this state; rendering and the
//! terminal loop live outside the library.

use vstd::prelude::*;

use crate::config::{Config, ConfigModel};
use crate::outcome::target_label;
use crate::resolve::{Target, TargetModel};
use crate::strutil::{contains_seq, contains_str, lower_of, lowercase, push_char};

verus! {

/// One menu entry: run an action, or show an application's details.
#[derive(Debug, Clone)]
pub enum MenuItem {
    Action { app: String, action: String },
    ShowDetails { app: String },
}

/// Mathematical model of a menu entry.
#[verifier::ext_equal]
pub enum MenuItemModel {
    Action { app: Seq<char>, action: Seq<char> },
    ShowDetails { app: Seq<char> },
}

impl View for MenuItem {
    type V = MenuItemModel;

    open spec fn view(&self) -> MenuItemModel {
        match self {
            MenuItem::Action { app, action } => MenuItemModel::Action {
                app: app@,
                action: action@,
            },
            MenuItem::ShowDetails { app } => MenuItemModel::ShowDetails { app: app@ },
        }
    }
}

impl DeepView for MenuItem {
    type V = MenuItemModel;

    open spec fn deep_view(&self) -> MenuItemModel {
        self@
    }
}

/// The text an entry is filtered by and shown as.
pub open spec fn item_text_spec(it: MenuItemModel) -> Seq<char> {
    match it {
        MenuItemModel::Action { app, action } => app + " - "@ + action,
        MenuItemModel::ShowDetails { app } => app + " - Show Details"@,
    }
}

/// Whether an entry's text contains the filter, case-insensitively under
/// Unicode lowercase folding.  An empty filter matches every entry.
pub open spec fn item_matches(it: MenuItemModel, filter: Seq<char>) -> bool {
    contains_seq(lower_of(item_text_spec(it)), lower_of(filter))
}

/// The indices of the entries among the first `n` that match the filter,
/// ascending.
pub open spec fn filtered_up_to(items: Seq<MenuItemModel>, filter: Seq<char>, n: int) -> Seq<usize>
    decreases n,
{
    if n <= 0 {
        Seq::empty()
    } else {
        filtered_up_to(items, filter, n - 1) + (if item_matches(items[n - 1], filter) {
            seq![(n - 1) as usize]
        } else {
            Seq::empty()
        })
    }
}

/// The indices of all matching entries, ascending.
pub open spec fn filtered_indices_spec(items: Seq<MenuItemModel>, filter: Seq<char>) -> Seq<usize> {
    filtered_up_to(items, filter, items.len() as int)
}

/// Where the cursor lands after the filtered list changes length.
pub open spec fn adjust_cursor(sel: int, len: int) -> int {
    if sel >= len && len > 0 {
        len - 1
    } else if len == 0 {
        0
    } else {
        sel
    }
}

proof fn lemma_filtered_bounds(items: Seq<MenuItemModel>, filter: Seq<char>, n: int)
    requires
        0 <= n <= items.len(),
    ensures
        forall|k: int|
            0 <= k < filtered_up_to(items, filter, n).len() ==> (filtered_up_to(items, filter, n)[k]
                as int) < n,
    decreases n,
{
    if n > 0 {
        lemma_filtered_bounds(items, filter, n - 1);
        let f1 = filtered_up_to(items, filter, n - 1);
        let f = filtered_up_to(items, filter, n);
        assert forall|k: int| 0 <= k < f.len() implies (f[k] as int) < n by {
            if k < f1.len() {
                assert(f[k] == f1[k]);
            } else {
                assert(f[k] == (n - 1) as usize);
            }
        }
    }
}

/// Index of the first occurrence of `x`, or -1 when absent.
pub open spec fn first_index_of_usize(s: Seq<usize>, x: usize) -> int
    decreases s.len(),
{
    if s.len() == 0 {
        -1
    } else if s[0] == x {
        0
    } else {
        let r = first_index_of_usize(s.drop_first(), x);
        if r == -1 {
            -1
        } else {
            r + 1
        }
    }
}

proof fn lemma_usize_index_from_scan(s: Seq<usize>, x: usize, i: int)
    requires
        0 <= i <= s.len(),
        forall|k: int| 0 <= k < i ==> s[k] != x,
        i == s.len() || s[i] == x,
    ensures
        first_index_of_usize(s, x) == if i == s.len() {
            -1int
        } else {
            i
        },
    decreases i,
{
    if i == 0 {
        if s.len() > 0 && s[0] != x {
            lemma_usize_index_from_scan(s.drop_first(), x, 0);
        }
    } else {
        lemma_usize_index_from_scan(s.drop_first(), x, i - 1);
    }
}

/// Toggling a selection entry: the first occurrence is removed when
/// present, otherwise the entry is appended.
pub open spec fn toggle_spec(s: Seq<usize>, x: usize) -> Seq<usize> {
    let i = first_index_of_usize(s, x);
    if 0 <= i < s.len() {
        s.remove(i)
    } else {
        s.push(x)
    }
}

/// The filtered positions `0, 1, ..., n-1`.
pub open spec fn ascending_indices(n: int) -> Seq<usize> {
    Seq::new(n as nat, |i: int| i as usize)
}

/// The menu state behind the interactive screen.
#[derive(Debug, Clone)]
pub struct App {
    pub menu_items: Vec<MenuItem>,
    pub filtered_items: Vec<usize>,
    pub selected_index: usize,
    pub filter: String,
    pub selected_items: Vec<usize>,
}

/// Mathematical model of the menu state.
#[verifier::ext_equal]
pub struct MenuModel {
    pub items: Seq<MenuItemModel>,
    pub filtered: Seq<usize>,
    pub selected_index: usize,
    pub filter: Seq<char>,
    pub selected: Seq<usize>,
}

impl View for App {
    type V = MenuModel;

    open spec fn view(&self) -> MenuModel {
        MenuModel {
            items: self.menu_items.deep_view(),
            filtered: self.filtered_items@,
            selected_index: self.selected_index,
            filter: self.filter@,
            selected: self.selected_items@,
        }
    }
}

impl App {
    /// Every filtered index points into the menu list, and the cursor sits
    /// inside the filtered list whenever that list is not empty.
    pub open spec fn wf(&self) -> bool {
        &&& forall|k: int|
            0 <= k < self@.filtered.len() ==> (#[trigger] self@.filtered[k] as int)
                < self@.items.len()
        &&& (self@.filtered.len() == 0 ==> self@.selected_index == 0)
        &&& (self@.filtered.len() > 0 ==> (self@.selected_index as int) < self@.filtered.len())
    }

    /// A fresh menu over the given entries, unfiltered, cursor at the top,
    /// nothing selected.
    pub fn new(menu_items: Vec<MenuItem>) -> (r: App)
        ensures
            r.wf(),
            r@.items == menu_items.deep_view(),
            r@.filtered == filtered_indices_spec(menu_items.deep_view(), Seq::<char>::empty()),
            r@.selected_index == 0,
            r@.filter == Seq::<char>::empty(),
            r@.selected == Seq::<usize>::empty(),
    {
        let mut app = App {
            menu_items,
            filtered_items: Vec::new(),
            selected_index: 0,
            filter: String::new(),
            selected_items: Vec::new(),
        };
        app.filter_items();
        app
    }

    /// Recomputes the filtered list from the current filter and pulls the
    /// cursor back inside it.
    pub fn filter_items(&mut self)
        ensures
            final(self).wf(),
            final(self)@.items == old(self)@.items,
            final(self)@.filter == old(self)@.filter,
            final(self)@.selected == old(self)@.selected,
            final(self)@.filtered == filtered_indices_spec(old(self)@.items, old(self)@.filter),
            final(self)@.selected_index as int == adjust_cursor(
                old(self)@.selected_index as int,
                filtered_indices_spec(old(self)@.items, old(self)@.filter).len() as int,
            ),
    {
        let ghost items_m = self.menu_items.deep_view();
        let ghost filter_m = self.filter@;
        let mut out: Vec<usize> = Vec::new();
        let n = self.menu_items.len();
        let mut i: usize = 0;
        proof {
            assert(out@ =~~= filtered_up_to(items_m, filter_m, 0));
        }
        while i < n
            invariant
                n == self.menu_items@.len(),
                i <= n,
                items_m == self.menu_items.deep_view(),
                filter_m == self.filter@,
                out@ == filtered_up_to(items_m, filter_m, i as int),
            decreases n - i,
        {
            let text: String = match &self.menu_items[i] {
                MenuItem::Action { app, action } => target_label(app.as_str(), action.as_str()),
                MenuItem::ShowDetails { app } => {
                    let mut t = app.clone();
                    t.append(" - Show Details");
                    t
                },
            };
            proof {
                assert(text@ == item_text_spec(items_m[i as int]));
            }
            let folded_text = lowercase(text.as_str());
            let folded_filter = lowercase(self.filter.as_str());
            if contains_str(folded_text.as_str(), folded_filter.as_str()) {
                out.push(i);
            }
            proof {
                assert(out@ =~~= filtered_up_to(items_m, filter_m, i + 1));
            }
            i += 1;
        }
        self.filtered_items = out;
        let flen = self.filtered_items.len();
        if self.selected_index >= flen && flen > 0 {
            self.selected_index = flen - 1;
        } else if flen == 0 {
            self.selected_index = 0;
        }
        proof {
            lemma_filtered_bounds(items_m, filter_m, n as int);
        }
    }

    /// Whether the entry at a filtered position is multi-selected.
    pub fn is_selected(&self, filtered_idx: usize) -> (r: bool)
        ensures
            r == self@.selected.contains(filtered_idx),
    {
        let n = self.selected_items.len();
        let mut i: usize = 0;
        while i < n
            invariant
                n == self.selected_items@.len(),
                i <= n,
                forall|k: int| 0 <= k < i ==> self.selected_items@[k] != filtered_idx,
            decreases n - i,
        {
            if self.selected_items[i] == filtered_idx {
                return true;
            }
            i += 1;
        }
        proof {
            if self@.selected.contains(filtered_idx) {
                let k = choose|k: int|
                    0 <= k < self@.selected.len() && self@.selected[k] == filtered_idx;
                assert(self.selected_items@[k] != filtered_idx);
            }
        }
        false
    }

    /// Adds the filtered position to the selection, or removes its first
    /// occurrence when it is already selected.
    pub fn toggle_selection(&mut self, filtered_idx: usize)
        ensures
            final(self)@.items == old(self)@.items,
            final(self)@.filtered == old(self)@.filtered,
            final(self)@.selected_index == old(self)@.selected_index,
            final(self)@.filter == old(self)@.filter,
            final(self)@.selected == toggle_spec(old(self)@.selected, filtered_idx),
    {
        let n = self.selected_items.len();
        let mut i: usize = 0;
        while i < n
            invariant
                n == self.selected_items@.len(),
                i <= n,
                self.menu_items == old(self).menu_items,
                self.filtered_items == old(self).filtered_items,
                self.selected_index == old(self).selected_index,
                self.filter == old(self).filter,
                self.selected_items == old(self).selected_items,
                forall|k: int| 0 <= k < i ==> self.selected_items@[k] != filtered_idx,
            decreases n - i,
        {
            if self.selected_items[i] == filtered_idx {
                let ghost prev = self.selected_items@;
                self.selected_items.remove(i);
                proof {
                    lemma_usize_index_from_scan(prev, filtered_idx, i as int);
                    assert(self.selected_items@ == prev.remove(i as int));
                }
                return ;
            }
            i += 1;
        }
        proof {
            lemma_usize_index_from_scan(self.selected_items@, filtered_idx, n as int);
        }
        self.selected_items.push(filtered_idx);
    }

    /// Selects every currently visible entry, by filtered position.
    pub fn select_all_filtered(&mut self)
        ensures
            final(self)@.items == old(self)@.items,
            final(self)@.filtered == old(self)@.filtered,
            final(self)@.selected_index == old(self)@.selected_index,
            final(self)@.filter == old(self)@.filter,
            final(self)@.selected == ascending_indices(old(self)@.filtered.len() as int),
    {
        let mut sel: Vec<usize> = Vec::new();
        let n = self.filtered_items.len();
        let mut i: usize = 0;
        while i < n
            invariant
                i <= n,
                sel@.len() == i,
                forall|k: int| 0 <= k < i ==> sel@[k] == k as usize,
            decreases n - i,
        {
            sel.push(i);
            i += 1;
        }
        proof {
            assert(sel@ =~~= ascending_indices(self.filtered_items@.len() as int));
        }
        self.selected_items = sel;
    }

    /// Empties the selection.
    pub fn deselect_all_filtered(&mut self)
        ensures
            final(self)@.items == old(self)@.items,
            final(self)@.filtered == old(self)@.filtered,
            final(self)@.selected_index == old(self)@.selected_index,
            final(self)@.filter == old(self)@.filter,
            final(self)@.selected == Seq::<usize>::empty(),
    {
        self.selected_items.clear();
        proof {
            assert(self.selected_items@ =~~= Seq::<usize>::empty());
        }
    }
}

/// The entries one application contributes to the menu: one per action, in
/// order, then its details entry.
pub open spec fn menu_of_app(
    name: Seq<char>,
    actions: Seq<Seq<char>>,
) -> Seq<MenuItemModel> {
    actions.map_values(|a: Seq<char>| MenuItemModel::Action { app: name, action: a }).push(
        MenuItemModel::ShowDetails { app: name },
    )
}

/// The whole menu of a configuration, applications in declaration order.
pub open spec fn menu_spec(m: ConfigModel, n: int) -> Seq<MenuItemModel>
    decreases n,
{
    if n <= 0 {
        Seq::empty()
    } else {
        menu_spec(m, n - 1) + menu_of_app(
            m.apps[n - 1].name,
            m.apps[n - 1].actions.map_values(|a: crate::config::ActionModel| a.name),
        )
    }
}

/// Builds the menu of a configuration: every application's actions in
/// order, each followed by the application's details entry.
pub fn build_menu(config: &Config) -> (r: Vec<MenuItem>)
    ensures
        r.deep_view() == menu_spec(config@, config@.apps.len() as int),
{
    let mut items: Vec<MenuItem> = Vec::new();
    let na = config.apps.len();
    let mut ai: usize = 0;
    proof {
        assert(items.deep_view() =~~= menu_spec(config@, 0));
    }
    while ai < na
        invariant
            na == config.apps@.len(),
            ai <= na,
            items.deep_view() == menu_spec(config@, ai as int),
        decreases na - ai,
    {
        let ghost mprev = items.deep_view();
        let app_entry = &config.apps[ai];
        let ghost app_m = config@.apps[ai as int];
        let ghost names_m = app_m.actions.map_values(|a: crate::config::ActionModel| a.name);
        proof {
            assert(config@.apps[ai as int] == config.apps@[ai as int]@);
            assert(app_entry@ == app_m);
        }
        let nact = app_entry.actions.len();
        let mut j: usize = 0;
        proof {
            assert(names_m.take(0) =~~= Seq::<Seq<char>>::empty());
            assert(items.deep_view() =~~= mprev + names_m.take(0).map_values(
                |a: Seq<char>| MenuItemModel::Action { app: app_m.name, action: a },
            ));
        }
        while j < nact
            invariant
                nact == app_entry.actions@.len(),
                j <= nact,
                ai < na,
                na == config.apps@.len(),
                app_entry@ == app_m,
                nact == app_m.actions.len(),
                names_m == app_m.actions.map_values(|a: crate::config::ActionModel| a.name),
                items.deep_view() == mprev + names_m.take(j as int).map_values(
                    |a: Seq<char>| MenuItemModel::Action { app: app_m.name, action: a },
                ),
            decreases nact - j,
        {
            let ghost iprev = items@;
            let ghost idprev = items.deep_view();
            items.push(
                MenuItem::Action {
                    app: app_entry.name.clone(),
                    action: app_entry.actions[j].name.clone(),
                },
            );
            proof {
                let goal = mprev + names_m.take(j + 1).map_values(
                    |a: Seq<char>| MenuItemModel::Action { app: app_m.name, action: a },
                );
                assert(app_entry.actions.deep_view() == app_m.actions);
                assert(app_entry.actions@[j as int]@ == app_m.actions[j as int]);
                assert(app_entry.actions@[j as int]@.name == names_m[j as int]);
                assert(app_entry.name@ == app_m.name);
                assert(names_m.len() == nact);
                assert(names_m.take(j as int).len() == j);
                assert(names_m.take(j + 1).len() == j + 1);
                assert(idprev.len() == mprev.len() + j);
                assert(iprev.len() == idprev.len());
                assert(items@.len() == iprev.len() + 1);
                assert(goal.len() == mprev.len() + j + 1);
                assert forall|k: int|
                    0 <= k < items@.len() implies items.deep_view()[k] == goal[k] by {
                    if k < iprev.len() {
                        assert(items@[k] == iprev[k]);
                        assert(idprev[k] == iprev[k]@);
                        if k >= mprev.len() {
                            assert(names_m.take(j as int)[k - mprev.len()] == names_m.take(j + 1)[k
                                - mprev.len()]);
                        }
                    } else {
                        assert(names_m.take(j + 1)[k - mprev.len()] == names_m[j as int]);
                    }
                }
                assert(items.deep_view() =~~= goal);
            }
            j += 1;
        }
        let ghost iprev2 = items@;
        let ghost idprev2 = items.deep_view();
        items.push(MenuItem::ShowDetails { app: app_entry.name.clone() });
        proof {
            assert(names_m.take(nact as int) =~~= names_m);
            let goal = menu_spec(config@, ai + 1);
            assert(goal =~~= mprev + menu_of_app(app_m.name, names_m));
            assert(names_m.len() == nact);
            assert(idprev2.len() == mprev.len() + nact);
            assert(iprev2.len() == idprev2.len());
            assert(items@.len() == iprev2.len() + 1);
            assert(menu_of_app(app_m.name, names_m).len() == nact + 1);
            assert forall|k: int| 0 <= k < items@.len() implies items.deep_view()[k] == goal[k] by {
                if k < iprev2.len() {
                    assert(items@[k] == iprev2[k]);
                    assert(idprev2[k] == iprev2[k]@);
                    if k >= mprev.len() {
                        assert(menu_of_app(app_m.name, names_m)[k - mprev.len()]
                            == names_m.map_values(
                            |a: Seq<char>| MenuItemModel::Action { app: app_m.name, action: a },
                        )[k - mprev.len()]);
                    }
                } else {
                    assert(menu_of_app(app_m.name, names_m)[k - mprev.len()]
                        == (MenuItemModel::ShowDetails { app: app_m.name }));
                }
            }
            assert(items.deep_view() =~~= goal);
        }
        ai += 1;
    }
    items
}

/// A key press, as the menu's transition understands it.
#[derive(Debug, Clone, Copy, PartialEq, Eq, Structural)]
pub enum KeyInput {
    Up,
    Down,
    PageUp,
    PageDown,
    Enter,
    Backspace,
    Delete,
    Esc,
    Typed(char),
}

/// What the caller must do after one key press.
#[derive(Debug, Clone)]
pub enum UiAction {
    /// Keep showing the menu.
    Stay,
    /// Leave the interactive session.
    Quit,
    /// Run every multi-selected target concurrently, then clear the
    /// selection.
    RunSelected,
    /// Run one action with terminal-visible output.
    RunSingle { app: String, action: String },
    /// Show one application's details.
    Inspect { app: String },
}

/// Mathematical model of a menu decision.
#[verifier::ext_equal]
pub enum UiActionModel {
    Stay,
    Quit,
    RunSelected,
    RunSingle { app: Seq<char>, action: Seq<char> },
    Inspect { app: Seq<char> },
}

impl View for UiAction {
    type V = UiActionModel;

    open spec fn view(&self) -> UiActionModel {
        match self {
            UiAction::Stay => UiActionModel::Stay,
            UiAction::Quit => UiActionModel::Quit,
            UiAction::RunSelected => UiActionModel::RunSelected,
            UiAction::RunSingle { app, action } => UiActionModel::RunSingle {
                app: app@,
                action: action@,
            },
            UiAction::Inspect { app } => UiActionModel::Inspect { app: app@ },
        }
    }
}

/// A character the filter accepts: printable ASCII.
pub open spec fn is_filter_char(c: char) -> bool {
    (c as u32) <= 127 && (c as u32) >= 32 && (c as u32) != 127
}

/// The menu state after one key press, given the current one.  One case
/// per key; the keys that edit the filter re-run the filtering.
pub open spec fn cursor_after(m: MenuModel, key: KeyInput) -> usize {
    let sel = m.selected_index;
    let limit: int = if m.filtered.len() > 0 {
        m.filtered.len() - 1
    } else {
        0
    };
    match key {
        KeyInput::Up => if sel > 0 {
            (sel - 1) as usize
        } else {
            0
        },
        KeyInput::Down => if (sel as int) < limit {
            (sel + 1) as usize
        } else {
            sel
        },
        KeyInput::PageUp => if sel >= 10 {
            (sel - 10) as usize
        } else {
            0
        },
        KeyInput::PageDown => if limit - (sel as int) >= 10 {
            (sel + 10) as usize
        } else {
            limit as usize
        },
        _ => sel,
    }
}

impl App {
    /// Applies one key press: cursor movement, selection editing, filter
    /// editing, and the decision what to run or show.  The caller performs
    /// the returned action; the menu state never names an entry that the
    /// menu does not hold.
    pub fn handle_key(&mut self, key: KeyInput) -> (r: UiAction)
        requires
            old(self).wf(),
        ensures
            final(self).wf(),
            final(self)@.items == old(self)@.items,
            match key {
                KeyInput::Esc => final(self)@ == old(self)@ && r@ == UiActionModel::Quit,
                KeyInput::Up | KeyInput::Down | KeyInput::PageUp | KeyInput::PageDown => final(self)@ == (MenuModel { selected_index: cursor_after(old(self)@, key), ..old(self)@ })
                    && r@ == UiActionModel::Stay,
                KeyInput::Enter => final(self)@ == old(self)@ && r@ == (if old(self)@.selected.len() > 0 {
                    UiActionModel::RunSelected
                } else if old(self)@.filtered.len() > 0 {
                    match old(self)@.items[old(self)@.filtered[old(self)@.selected_index as int] as int] {
                        MenuItemModel::Action { app, action } => UiActionModel::RunSingle {
                            app,
                            action,
                        },
                        MenuItemModel::ShowDetails { app } => UiActionModel::Inspect { app },
                    }
                } else {
                    UiActionModel::Stay
                }),
                KeyInput::Backspace | KeyInput::Delete => {
                    let nf = if key is Delete {
                        Seq::<char>::empty()
                    } else if old(self)@.filter.len() > 0 {
                        old(self)@.filter.drop_last()
                    } else {
                        old(self)@.filter
                    };
                    &&& final(self)@.filter == nf
                    &&& final(self)@.selected == old(self)@.selected
                    &&& final(self)@.filtered == filtered_indices_spec(old(self)@.items, nf)
                    &&& final(self)@.selected_index as int == adjust_cursor(
                        old(self)@.selected_index as int,
                        filtered_indices_spec(old(self)@.items, nf).len() as int,
                    )
                    &&& r@ == UiActionModel::Stay
                },
                KeyInput::Typed(c) => {
                    if c == ' ' {
                        &&& final(self)@.filter == old(self)@.filter
                        &&& final(self)@.filtered == old(self)@.filtered
                        &&& final(self)@.selected_index == old(self)@.selected_index
                        &&& final(self)@.selected == (if old(self)@.filtered.len() > 0 && (old(self)@.items[old(self)@.filtered[old(self)@.selected_index as int] as int]
                            is Action) {
                            toggle_spec(old(self)@.selected, old(self)@.selected_index)
                        } else {
                            old(self)@.selected
                        })
                        &&& r@ == UiActionModel::Stay
                    } else if c == '+' {
                        final(self)@ == (MenuModel {
                            selected: ascending_indices(old(self)@.filtered.len() as int),
                            ..old(self)@
                        }) && r@ == UiActionModel::Stay
                    } else if c == '-' {
                        final(self)@ == (MenuModel { selected: Seq::empty(), ..old(self)@ }) && r@
                            == UiActionModel::Stay
                    } else if is_filter_char(c) {
                        &&& final(self)@.filter == old(self)@.filter.push(c)
                        &&& final(self)@.selected == old(self)@.selected
                        &&& final(self)@.filtered == filtered_indices_spec(
                            old(self)@.items,
                            old(self)@.filter.push(c),
                        )
                        &&& final(self)@.selected_index == 0
                        &&& r@ == UiActionModel::Stay
                    } else {
                        final(self)@ == old(self)@ && r@ == UiActionModel::Stay
                    }
                },
            },
    {
        match key {
            KeyInput::Esc => UiAction::Quit,
            KeyInput::Up => {
                if self.selected_index > 0 {
                    self.selected_index = self.selected_index - 1;
                }
                UiAction::Stay
            },
            KeyInput::Down => {
                let flen = self.filtered_items.len();
                let limit = if flen > 0 {
                    flen - 1
                } else {
                    0
                };
                if self.selected_index < limit {
                    self.selected_index = self.selected_index + 1;
                }
                UiAction::Stay
            },
            KeyInput::PageUp => {
                if self.selected_index >= 10 {
                    self.selected_index = self.selected_index - 10;
                } else {
                    self.selected_index = 0;
                }
                UiAction::Stay
            },
            KeyInput::PageDown => {
                let flen = self.filtered_items.len();
                let limit = if flen > 0 {
                    flen - 1
                } else {
                    0
                };
                if limit - self.selected_index >= 10 {
                    self.selected_index = self.selected_index + 10;
                } else {
                    self.selected_index = limit;
                }
                UiAction::Stay
            },
            KeyInput::Enter => {
                if self.selected_items.len() > 0 {
                    UiAction::RunSelected
                } else if self.filtered_items.len() > 0 {
                    let item_idx = self.filtered_items[self.selected_index];
                    match &self.menu_items[item_idx] {
                        MenuItem::Action { app, action } => UiAction::RunSingle {
                            app: app.clone(),
                            action: action.clone(),
                        },
                        MenuItem::ShowDetails { app } => UiAction::Inspect { app: app.clone() },
                    }
                } else {
                    UiAction::Stay
                }
            },
            KeyInput::Backspace => {
                let fl = self.filter.as_str().unicode_len();
                if fl > 0 {
                    let shorter = self.filter.as_str().substring_char(0, fl - 1).to_owned();
                    proof {
                        assert(shorter@ =~~= self.filter@.drop_last());
                    }
                    self.filter = shorter;
                }
                self.filter_items();
                UiAction::Stay
            },
            KeyInput::Delete => {
                self.filter = String::new();
                self.filter_items();
                UiAction::Stay
            },
            KeyInput::Typed(c) => {
                if c == ' ' {
                    let flen = self.filtered_items.len();
                    if flen > 0 {
                        let item_idx = self.filtered_items[self.selected_index];
                        let is_action = match &self.menu_items[item_idx] {
                            MenuItem::Action { .. } => true,
                            MenuItem::ShowDetails { .. } => false,
                        };
                        if is_action {
                            let cur = self.selected_index;
                            self.toggle_selection(cur);
                        }
                    }
                    UiAction::Stay
                } else if c == '+' {
                    self.select_all_filtered();
                    UiAction::Stay
                } else if c == '-' {
                    self.deselect_all_filtered();
                    UiAction::Stay
                } else if (c as u32) <= 127 && (c as u32) >= 32 && (c as u32) != 127 {
                    push_char(&mut self.filter, c);
                    self.filter_items();
                    self.selected_index = 0;
                    UiAction::Stay
                } else {
                    UiAction::Stay
                }
            },
        }
    }
}

/// The targets the current multi-selection stands for, in selection order:
/// each selected filtered position that still points at an action entry
/// contributes one target.
pub open spec fn selected_contribution(m: MenuModel, sel: usize) -> Seq<TargetModel> {
    if (sel as int) < m.filtered.len() {
        let ii = m.filtered[sel as int];
        if (ii as int) < m.items.len() {
            match m.items[ii as int] {
                MenuItemModel::Action { app, action } => seq![
                    TargetModel { app: app, action: action },
                ],
                MenuItemModel::ShowDetails { .. } => Seq::empty(),
            }
        } else {
            Seq::empty()
        }
    } else {
        Seq::empty()
    }
}

/// The targets of the first `n` selection entries.
pub open spec fn selected_targets_up_to(m: MenuModel, n: int) -> Seq<TargetModel>
    decreases n,
{
    if n <= 0 {
        Seq::empty()
    } else {
        selected_targets_up_to(m, n - 1) + selected_contribution(m, m.selected[n - 1])
    }
}

impl App {
    /// The targets the multi-selection stands for, in selection order.
    pub fn selected_targets(&self) -> (r: Vec<Target>)
        requires
            self.wf(),
        ensures
            r.deep_view() == selected_targets_up_to(self@, self@.selected.len() as int),
    {
        let mut out: Vec<Target> = Vec::new();
        let n = self.selected_items.len();
        let mut i: usize = 0;
        proof {
            assert(out.deep_view() =~~= selected_targets_up_to(self@, 0));
        }
        while i < n
            invariant
                self.wf(),
                n == self.selected_items@.len(),
                i <= n,
                out.deep_view() == selected_targets_up_to(self@, i as int),
            decreases n - i,
        {
            let sel = self.selected_items[i];
            if sel < self.filtered_items.len() {
                let item_idx = self.filtered_items[sel];
                proof {
                    assert(self@.filtered[sel as int] == item_idx);
                    assert((item_idx as int) < self@.items.len());
                }
                match &self.menu_items[item_idx] {
                    MenuItem::Action { app, action } => {
                        let ghost oprev = out@;
                        let ghost odprev = out.deep_view();
                        out.push(Target { app: app.clone(), action: action.clone() });
                        proof {
                            let goal = selected_targets_up_to(self@, i + 1);
                            assert forall|k: int|
                                0 <= k < out@.len() implies out.deep_view()[k] == goal[k] by {
                                if k < oprev.len() {
                                    assert(out@[k] == oprev[k]);
                                    assert(odprev[k] == oprev[k]@);
                                }
                            }
                            assert(out.deep_view() =~~= goal);
                        }
                    },
                    MenuItem::ShowDetails { .. } => {
                        proof {
                            assert(out.deep_view() =~~= selected_targets_up_to(self@, i + 1));
                        }
                    },
                }
            } else {
                proof {
                    assert(out.deep_view() =~~= selected_targets_up_to(self@, i + 1));
                }
            }
            i += 1;
        }
        out
    }
}

} // verus!
