//! What is on the screen, and how the keyboard moves through it.

use vstd::prelude::*;
use vstd::string::*;
use crate::config::AppEntry;
use crate::launch::opt_view;
use crate::laws_screen::law_enter_launches_the_first_found;
use crate::listing::{
    are_recent_rows, in_range, is_listed, is_locked, layout, layout_rows, lemma_indices_where,
    listed, locked_categories, most_recent_rows, names_at, remaining, remaining_apps, rows_view,
    visible_apps, Row,
};
use crate::state::App;
use crate::text::is_among;

verus! {

/// What the launcher lists at one moment.
#[derive(Debug)]
pub struct Frame {
    /// The ids of the locked categories.
    pub locked: Vec<String>,
    /// The entries that are not hidden, in the chosen category, and found by
    /// the search.
    pub visible: Vec<usize>,
    /// The recently used entries above the list.
    pub recent_rows: Vec<usize>,
    /// The entries in the order of the screen.
    pub display_order: Vec<usize>,
}

impl App {
    /// The recently used entries are shown: every category is, and nothing is
    /// searched.
    pub open spec fn shows_recent(&self) -> bool {
        self.active_category is None && self.search@.len() == 0
    }

    /// `f` is what the launcher lists in this state.
    pub open spec fn lists(&self, f: Frame) -> bool {
        let locked = f.locked.deep_view();
        &&& forall|id: Seq<char>|
            #[trigger] locked.contains(id) <==> is_locked(
                self.categories(),
                self.unlocked.deep_view(),
                id,
            )
        &&& f.visible@ == listed(
            self.apps(),
            locked,
            opt_view(self.active_category),
            self.search@,
        )
        &&& if self.shows_recent() {
            are_recent_rows(self.apps(), locked, self.recent, f.recent_rows@)
        } else {
            f.recent_rows.len() == 0
        }
        &&& f.display_order@ == f.recent_rows@ + remaining(
            self.apps(),
            f.visible@,
            f.recent_rows@,
        )
    }

    /// What the launcher lists: which categories are locked, which entries
    /// stand in the list, which of them were used recently, and the order of
    /// the screen, the recently used ones first.
    pub fn frame(&self) -> (r: Frame)
        requires
            self.wf(),
            self.config is Ok,
        ensures
            self.lists(r),
            r.in_range(self.apps().len()),
    {
        match &self.config {
            Ok(cfg) => {
                let locked = locked_categories(&cfg.categories, &self.unlocked);
                let visible = visible_apps(
                    &cfg.apps,
                    &locked,
                    &self.active_category,
                    self.search.as_str(),
                );
                let recent_rows = if self.active_category.is_none()
                    && self.search.as_str().is_empty() {
                    most_recent_rows(&cfg.apps, &locked, &self.recent)
                } else {
                    Vec::new()
                };
                proof {
                    lemma_listed_in_range(*self, locked.deep_view());
                }
                let rest = remaining_apps(&cfg.apps, &visible, &recent_rows);
                let mut display_order: Vec<usize> = Vec::new();
                let mut k: usize = 0;
                while k < recent_rows.len()
                    invariant
                        k <= recent_rows.len(),
                        display_order@ == recent_rows@.take(k as int),
                    decreases recent_rows.len() - k,
                {
                    display_order.push(recent_rows[k]);
                    k += 1;
                }
                assert(recent_rows@.take(k as int) == recent_rows@);
                let mut j: usize = 0;
                while j < rest.len()
                    invariant
                        j <= rest.len(),
                        display_order@ == recent_rows@ + rest@.take(j as int),
                    decreases rest.len() - j,
                {
                    display_order.push(rest[j]);
                    j += 1;
                }
                assert(rest@.take(j as int) == rest@);
                proof {
                    lemma_remaining_in_range(self.apps(), visible@, recent_rows@);
                }
                Frame { locked, visible, recent_rows, display_order }
            },
            Err(_) => Frame {
                locked: Vec::new(),
                visible: Vec::new(),
                recent_rows: Vec::new(),
                display_order: Vec::new(),
            },
        }
    }

    /// The rows below the recently used entries, with their headings.
    pub fn rows(&self, f: &Frame) -> (r: Vec<Row>)
        requires
            self.config is Ok,
            f.in_range(self.apps().len()),
        ensures
            rows_view(r@) == layout(
                self.apps(),
                self.categories(),
                self.active_category is None,
                remaining(self.apps(), f.visible@, f.recent_rows@),
            ),
    {
        match &self.config {
            Ok(cfg) => {
                let rest = remaining_apps(&cfg.apps, &f.visible, &f.recent_rows);
                proof {
                    lemma_remaining_in_range(self.apps(), f.visible@, f.recent_rows@);
                }
                layout_rows(&cfg.apps, &cfg.categories, self.active_category.is_none(), &rest)
            },
            Err(_) => Vec::new(),
        }
    }
}

impl Frame {
    /// Every position exists.
    pub open spec fn in_range(&self, n: nat) -> bool {
        in_range(self.visible@, n) && in_range(self.recent_rows@, n) && in_range(
            self.display_order@,
            n,
        )
    }
}

proof fn lemma_listed_in_range(app: App, locked: Seq<Seq<char>>)
    requires
        app.apps().len() <= usize::MAX,
    ensures
        in_range(
            listed(app.apps(), locked, opt_view(app.active_category), app.search@),
            app.apps().len(),
        ),
{
    lemma_indices_where(
        app.apps().len(),
        |i: int|
            is_listed(app.apps()[i], locked, opt_view(app.active_category), app.search@),
    );
}

proof fn lemma_remaining_in_range(apps: Seq<AppEntry>, visible: Seq<usize>, rows: Seq<usize>)
    requires
        in_range(visible, apps.len()),
    ensures
        in_range(remaining(apps, visible, rows), apps.len()),
{
    lemma_filtered_in_range(
        apps.len(),
        visible,
        |i: usize| !names_at(apps, rows).contains(apps[i as int].name@),
    );
}

/// A filtered sequence holds only what the sequence holds.
proof fn lemma_filtered_in_range(n: nat, rows: Seq<usize>, keep: spec_fn(usize) -> bool)
    requires
        in_range(rows, n),
    ensures
        in_range(rows.filter(keep), n),
    decreases rows.len(),
{
    reveal(Seq::filter);
    if rows.len() > 0 {
        lemma_filtered_in_range(n, rows.drop_last(), keep);
    }
}

/// The first position of `x` in `order`.
pub open spec fn first_at(order: Seq<usize>, x: usize, p: int) -> bool {
    0 <= p < order.len() && order[p] == x && forall|q: int| 0 <= q < p ==> order[q] != x
}

/// The position one step on from `p`, or one step back; the ends stay.
pub open spec fn step(p: int, len: int, down: bool) -> int {
    if down {
        if p + 1 < len {
            p + 1
        } else {
            len - 1
        }
    } else if p > 0 {
        p - 1
    } else {
        0
    }
}

impl App {
    /// An arrow key: moves the keyboard choice one entry down or up the screen,
    /// or to the first entry where nothing on the screen was chosen. The chosen
    /// entry is previewed and scrolled into view.
    pub fn navigate(&mut self, f: &Frame, up: bool, down: bool)
        requires
            old(self).wf(),
            f.in_range(old(self).apps().len()),
        ensures
            final(self).wf(),
            !(up || down) || f.display_order.len() == 0 ==> *final(self) == *old(self),
            *final(self) == (App {
                highlighted: final(self).highlighted,
                selected: final(self).selected,
                scroll_to_highlight: final(self).scroll_to_highlight,
                ..*old(self)
            }),
            (up || down) && f.display_order.len() > 0 ==> {
                &&& final(self).scroll_to_highlight
                &&& final(self).selected == final(self).highlighted
                &&& forall|p: int|
                    old(self).highlighted is Some && #[trigger] first_at(
                        f.display_order@,
                        old(self).highlighted->Some_0,
                        p,
                    ) ==> final(self).highlighted == Some(
                        f.display_order@[step(p, f.display_order@.len() as int, down)],
                    )
                &&& (old(self).highlighted matches Some(h) ==> !f.display_order@.contains(h))
                    ==> final(self).highlighted == Some(f.display_order@[0])
            },
    {
        if !(up || down) || f.display_order.len() == 0 {
            return;
        }
        let n: usize = f.display_order.len();
        let mut target: usize = 0;
        if let Some(h) = self.highlighted {
            let mut p: usize = 0;
            while p < n && f.display_order[p] != h
                invariant
                    p <= n == f.display_order.len(),
                    forall|q: int| 0 <= q < p ==> f.display_order@[q] != h,
                decreases n - p,
            {
                p += 1;
            }
            if p < n {
                assert(first_at(f.display_order@, h, p as int));
                assert(f.display_order@.contains(h));
                target = if down {
                    if p + 1 < n {
                        p + 1
                    } else {
                        n - 1
                    }
                } else if p > 0 {
                    p - 1
                } else {
                    0
                };
            }
        }
        self.highlighted = Some(f.display_order[target]);
        self.selected = self.highlighted;
        self.scroll_to_highlight = true;
    }

    /// The entry that the Enter key launches.
    pub open spec fn entered(&self, f: Frame) -> Option<usize> {
        match self.highlighted {
            Some(h) if f.visible@.contains(h) => Some(h),
            _ => if self.search@.len() > 0 && f.visible@.len() > 0 {
                Some(f.visible@[0])
            } else {
                None
            },
        }
    }

    /// The entry that the Enter key launches: the keyboard choice; where there
    /// is none in the list, the first search result, but only while something
    /// is searched, so that a stray Enter on the full list launches nothing.
    pub fn enter_target(&self, f: &Frame) -> (r: Option<usize>)
        ensures
            r == self.entered(*f),
            self.lists(*f) && self.wf() && self.search@.len() > 0 && f.visible.len() > 0 && (
            self.highlighted matches Some(h) ==> !f.visible@.contains(h)) ==> r is Some
                && f.visible@.contains(r->Some_0) && forall|i: usize| #[trigger]
                f.visible@.contains(i) ==> r->Some_0 <= i,
    {
        proof {
            if self.lists(*f) && self.wf() {
                law_enter_launches_the_first_found(*self, *f);
            }
        }
        if let Some(h) = self.highlighted {
            let mut k: usize = 0;
            while k < f.visible.len()
                invariant
                    k <= f.visible.len(),
                    self.highlighted == Some(h),
                    forall|j: int| 0 <= j < k ==> f.visible@[j] != h,
                decreases f.visible.len() - k,
            {
                if f.visible[k] == h {
                    assert(f.visible@.contains(h));
                    return Some(h);
                }
                k += 1;
            }
            assert(!f.visible@.contains(h));
        }
        if self.search.as_str().is_empty() || f.visible.len() == 0 {
            None
        } else {
            Some(f.visible[0])
        }
    }

    /// The Escape key: clears the search, and closes the launcher where the
    /// search is already empty. Returns whether to close.
    pub fn escape(&mut self) -> (r: bool)
        ensures
            r == (old(self).search@.len() == 0),
            r ==> *final(self) == *old(self),
            !r ==> final(self).search@.len() == 0 && final(self).focus_search,
            *final(self) == (App {
                search: final(self).search,
                focus_search: final(self).focus_search,
                ..*old(self)
            }),
    {
        if self.search.as_str().is_empty() {
            return true;
        }
        self.search = String::new();
        self.focus_search = true;
        false
    }

    /// The pointer is over an entry: it is previewed.
    pub fn hover(&mut self, idx: usize)
        requires
            old(self).wf(),
            idx < old(self).apps().len(),
        ensures
            final(self).wf(),
            *final(self) == (App { selected: Some(idx), ..*old(self) }),
    {
        self.selected = Some(idx);
    }

    /// The category whose password is asked for: the chosen one, while it is
    /// locked.
    pub open spec fn asks_for(&self, f: Frame, r: Option<usize>) -> bool {
        let cats = self.categories();
        match r {
            Some(k) => k < cats.len() && opt_view(self.active_category) == Some(cats[k as int].id@)
                && f.locked.deep_view().contains(cats[k as int].id@) && forall|j: int|
                0 <= j < k ==> (#[trigger] cats[j]).id@ != cats[k as int].id@,
            None => self.active_category matches Some(c) ==> !f.locked.deep_view().contains(c@)
                || forall|j: int| 0 <= j < cats.len() ==> (#[trigger] cats[j]).id@ != c@,
        }
    }

    /// The category whose password is asked for, in place of its entries.
    pub fn locked_prompt(&self, f: &Frame) -> (r: Option<usize>)
        ensures
            self.asks_for(*f, r),
    {
        match (&self.config, &self.active_category) {
            (Ok(cfg), Some(c)) => {
                if !is_among(&f.locked, c) {
                    return None;
                }
                let mut k: usize = 0;
                while k < cfg.categories.len()
                    invariant
                        k <= cfg.categories.len(),
                        self.categories() == cfg.categories@,
                        opt_view(self.active_category) == Some(c@),
                        f.locked.deep_view().contains(c@),
                        forall|j: int| 0 <= j < k ==> (#[trigger] cfg.categories@[j]).id@ != c@,
                    decreases cfg.categories.len() - k,
                {
                    if cfg.categories[k].id == *c {
                        return Some(k);
                    }
                    k += 1;
                }
                None
            },
            _ => None,
        }
    }
}

} // verus!
