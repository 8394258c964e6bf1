//! What the launcher lists: which entries are hidden, which match, which were
//! used recently, and in which order and under which headings they stand.

use vstd::prelude::*;
use vstd::string::*;
use crate::config::{AppEntry, Category};
use crate::launch::opt_view;
use crate::laws_screen::law_sections_are_headed;
use crate::recent::RecentFile;
use crate::text::{decimal, is_among, number_text};

verus! {

/// How many entries the list of recently used ones shows.
pub const RECENT_SHOWN: usize = 5;

/// The category is protected and has not been unlocked.
pub open spec fn locks(c: Category, unlocked: Seq<Seq<char>>) -> bool {
    c.passwords.len() > 0 && !unlocked.contains(c.id@)
}

/// The id belongs to a protected category that has not been unlocked.
pub open spec fn is_locked(
    categories: Seq<Category>,
    unlocked: Seq<Seq<char>>,
    id: Seq<char>,
) -> bool {
    exists|k: int|
        0 <= k < categories.len() && (#[trigger] categories[k]).id@ == id && locks(
            categories[k],
            unlocked,
        )
}

/// The ids of the protected categories that have not been unlocked.
pub fn locked_categories(categories: &Vec<Category>, unlocked: &Vec<String>) -> (r: Vec<String>)
    ensures
        forall|id: Seq<char>|
            #[trigger] r.deep_view().contains(id) <==> is_locked(
                categories@,
                unlocked.deep_view(),
                id,
            ),
{
    let mut r: Vec<String> = Vec::new();
    let mut k: usize = 0;
    while k < categories.len()
        invariant
            k <= categories.len(),
            forall|id: Seq<char>|
                #[trigger] r.deep_view().contains(id) <==> is_locked(
                    categories@.take(k as int),
                    unlocked.deep_view(),
                    id,
                ),
        decreases categories.len() - k,
    {
        let c = &categories[k];
        let ghost seen = categories@.take(k as int);
        let ghost more = categories@.take(k + 1);
        let ghost before = r.deep_view();
        let ghost open_ids = unlocked.deep_view();
        let locked = c.passwords.len() > 0 && !is_among(unlocked, &c.id);
        if locked {
            r.push(c.id.clone());
        }
        assert forall|id: Seq<char>|
            #[trigger] r.deep_view().contains(id) <==> is_locked(more, open_ids, id) by {
            if locked {
                assert(r.deep_view() == before.push(c.id@));
                assert(r.deep_view().contains(id) <==> before.contains(id) || id == c.id@) by {
                    if before.contains(id) {
                        let i = choose|i: int| 0 <= i < before.len() && before[i] == id;
                        assert(r.deep_view()[i] == id);
                    }
                    if id == c.id@ {
                        assert(r.deep_view()[before.len() as int] == id);
                    }
                }
            }
            if is_locked(seen, open_ids, id) {
                let j = choose|j: int|
                    0 <= j < seen.len() && (#[trigger] seen[j]).id@ == id && locks(
                        seen[j],
                        open_ids,
                    );
                assert(more[j].id@ == id);
            }
            if is_locked(more, open_ids, id) {
                let j = choose|j: int|
                    0 <= j < more.len() && (#[trigger] more[j]).id@ == id && locks(
                        more[j],
                        open_ids,
                    );
                if j < k {
                    assert(seen[j].id@ == id);
                }
            }
            assert(more[k as int] == *c);
        }
        k += 1;
    }
    assert(categories@.take(k as int) == categories@);
    r
}

/// The numbers below `n` that satisfy `p`, in ascending order.
pub open spec fn indices_where(n: nat, p: spec_fn(int) -> bool) -> Seq<usize>
    decreases n,
{
    if n == 0 {
        Seq::empty()
    } else {
        let before = indices_where((n - 1) as nat, p);
        if p(n - 1) {
            before.push((n - 1) as usize)
        } else {
            before
        }
    }
}

/// `indices_where` holds exactly the numbers that satisfy `p`, in ascending
/// order.
pub proof fn lemma_indices_where(n: nat, p: spec_fn(int) -> bool)
    requires
        n <= usize::MAX,
    ensures
        forall|i: usize| #[trigger] indices_where(n, p).contains(i) <==> i < n && p(i as int),
        forall|k: int|
            0 <= k < indices_where(n, p).len() ==> (#[trigger] indices_where(n, p)[k]) < n && p(
                indices_where(n, p)[k] as int,
            ),
        forall|k: int, l: int|
            0 <= k < l < indices_where(n, p).len() ==> (#[trigger] indices_where(n, p)[k]) < (
            #[trigger] indices_where(n, p)[l]),
    decreases n,
{
    if n > 0 {
        let m = (n - 1) as nat;
        lemma_indices_where(m, p);
        let before = indices_where(m, p);
        let all = indices_where(n, p);
        assert forall|i: usize| #[trigger] all.contains(i) <==> i < n && p(i as int) by {
            if all.contains(i) {
                let k = choose|k: int| 0 <= k < all.len() && all[k] == i;
                if k < before.len() {
                    assert(before[k] == i);
                }
            }
            if i < n && p(i as int) {
                if i < m {
                    assert(before.contains(i));
                    let k = choose|k: int| 0 <= k < before.len() && before[k] == i;
                    assert(all[k] == i);
                } else {
                    assert(all[before.len() as int] == i);
                }
            }
        }
    }
}

/// The entry stands in the list: it is not hidden, it belongs to the chosen
/// category, and it is a result of the search.
pub open spec fn is_listed(
    a: AppEntry,
    locked: Seq<Seq<char>>,
    active: Option<Seq<char>>,
    search: Seq<char>,
) -> bool {
    &&& !locked.contains(a.category@)
    &&& active matches Some(c) ==> a.category@ == c
    &&& a.matches_needle(search)
}

/// The entries in the list, in the order of the configuration.
pub open spec fn listed(
    apps: Seq<AppEntry>,
    locked: Seq<Seq<char>>,
    active: Option<Seq<char>>,
    search: Seq<char>,
) -> Seq<usize> {
    indices_where(apps.len(), |i: int| is_listed(apps[i], locked, active, search))
}

/// The positions of the entries in the list.
pub fn visible_apps(
    apps: &Vec<AppEntry>,
    locked: &Vec<String>,
    active: &Option<String>,
    search: &str,
) -> (r: Vec<usize>)
    ensures
        r@ == listed(apps@, locked.deep_view(), opt_view(*active), search@),
{
    let mut r: Vec<usize> = Vec::new();
    let mut i: usize = 0;
    let ghost p = |j: int| is_listed(apps@[j], locked.deep_view(), opt_view(*active), search@);
    while i < apps.len()
        invariant
            i <= apps.len(),
            p == (|j: int| is_listed(apps@[j], locked.deep_view(), opt_view(*active), search@)),
            r@ == indices_where(i as nat, p),
        decreases apps.len() - i,
    {
        let a = &apps[i];
        let in_category = match active {
            Some(c) => a.category == *c,
            None => true,
        };
        if !is_among(locked, &a.category) && in_category && a.matches(search) {
            r.push(i);
        }
        i += 1;
    }
    r
}

/// The entry is not hidden, and no such entry of the same name stands before
/// it.
pub open spec fn first_of_name(apps: Seq<AppEntry>, locked: Seq<Seq<char>>, i: int) -> bool {
    &&& 0 <= i < apps.len()
    &&& !locked.contains(apps[i].category@)
    &&& forall|j: int|
        0 <= j < i ==> locked.contains(apps[j].category@) || (#[trigger] apps[j]).name@
            != apps[i].name@
}

/// The entry can stand among the recently used ones.
pub open spec fn was_used(
    apps: Seq<AppEntry>,
    locked: Seq<Seq<char>>,
    recent: RecentFile,
    i: int,
) -> bool {
    first_of_name(apps, locked, i) && recent@.contains_key(apps[i].name@)
}

/// When the entry was last launched.
pub open spec fn last_used(apps: Seq<AppEntry>, recent: RecentFile, i: int) -> u64 {
    recent@[apps[i].name@].last_epoch
}

/// Entry `i` was launched after entry `j`, or at the same time and stands
/// before it.
pub open spec fn more_recent(
    apps: Seq<AppEntry>,
    recent: RecentFile,
    i: int,
    j: int,
) -> bool {
    ||| last_used(apps, recent, i) > last_used(apps, recent, j)
    ||| last_used(apps, recent, i) == last_used(apps, recent, j) && i < j
}

/// Each row comes before the next, the most recent one first.
pub open spec fn by_time(apps: Seq<AppEntry>, recent: RecentFile, rows: Seq<usize>) -> bool {
    forall|k: int, l: int|
        0 <= k < l < rows.len() ==> more_recent(
            apps,
            recent,
            (#[trigger] rows[k]) as int,
            (#[trigger] rows[l]) as int,
        )
}

/// `rows` are the most recently used entries: at most `RECENT_SHOWN` of those
/// that can stand there, the most recent one first, and none is missing that
/// was used after one of them or that there is room for.
pub open spec fn are_recent_rows(
    apps: Seq<AppEntry>,
    locked: Seq<Seq<char>>,
    recent: RecentFile,
    rows: Seq<usize>,
) -> bool {
    &&& rows.len() <= RECENT_SHOWN
    &&& forall|k: int|
        0 <= k < rows.len() ==> was_used(apps, locked, recent, (#[trigger] rows[k]) as int)
    &&& by_time(apps, recent, rows)
    &&& forall|i: usize|
        #[trigger]
        was_used(apps, locked, recent, i as int) && !rows.contains(i) ==> rows.len()
            == RECENT_SHOWN && forall|k: int|
            0 <= k < rows.len() ==> more_recent(apps, recent, (#[trigger] rows[k]) as int, i as int)
}

fn is_first_of_name(apps: &Vec<AppEntry>, locked: &Vec<String>, i: usize) -> (r: bool)
    requires
        i < apps.len(),
    ensures
        r == first_of_name(apps@, locked.deep_view(), i as int),
{
    if is_among(locked, &apps[i].category) {
        return false;
    }
    let mut j: usize = 0;
    while j < i
        invariant
            j <= i < apps.len(),
            forall|h: int|
                0 <= h < j ==> locked.deep_view().contains(apps[h].category@) || (
                #[trigger] apps@[h]).name@ != apps[i as int].name@,
        decreases i - j,
    {
        if !is_among(locked, &apps[j].category) && apps[j].name == apps[i].name {
            assert(apps@[j as int].name@ == apps@[i as int].name@);
            return false;
        }
        j += 1;
    }
    true
}

/// The positions of the most recently used entries, the most recent one first.
pub fn most_recent_rows(
    apps: &Vec<AppEntry>,
    locked: &Vec<String>,
    recent: &RecentFile,
) -> (r: Vec<usize>)
    requires
        recent.wf(),
    ensures
        are_recent_rows(apps@, locked.deep_view(), *recent, r@),
{
    let ghost ids = locked.deep_view();
    let mut rows: Vec<usize> = Vec::new();
    let mut times: Vec<u64> = Vec::new();
    let mut i: usize = 0;
    while i < apps.len()
        invariant
            i <= apps.len(),
            ids == locked.deep_view(),
            recent.wf(),
            rows.len() == times.len(),
            forall|k: int|
                0 <= k < rows.len() ==> (#[trigger] rows@[k]) < i && was_used(
                    apps@,
                    ids,
                    *recent,
                    rows@[k] as int,
                ) && times@[k] == last_used(apps@, *recent, rows@[k] as int),
            by_time(apps@, *recent, rows@),
            forall|h: usize|
                h < i && #[trigger] was_used(apps@, ids, *recent, h as int) ==> rows@.contains(h),
        decreases apps.len() - i,
    {
        let ghost before = rows@;
        let ghost times_before = times@;
        if is_first_of_name(apps, locked, i) {
            match recent.get(&apps[i].name) {
                Some(e) => {
                    let time: u64 = e.last_epoch;
                    let mut at: usize = rows.len();
                    while at > 0 && times[at - 1] < time
                        invariant
                            at <= rows.len() == times.len(),
                            forall|k: int| at <= k < rows.len() ==> times@[k] < time,
                        decreases at,
                    {
                        at -= 1;
                    }
                    rows.insert(at, i);
                    times.insert(at, time);
                    assert(was_used(apps@, ids, *recent, i as int));
                    assert(time == last_used(apps@, *recent, i as int));
                    assert forall|k: int, l: int| 0 <= k < l < rows@.len() implies more_recent(
                        apps@,
                        *recent,
                        (#[trigger] rows@[k]) as int,
                        (#[trigger] rows@[l]) as int,
                    ) by {
                        let k0 = if k > at {
                            k - 1
                        } else {
                            k
                        };
                        let l0 = if l > at {
                            l - 1
                        } else {
                            l
                        };
                        if k != at {
                            assert(rows@[k] == before[k0]);
                        }
                        if l != at {
                            assert(rows@[l] == before[l0]);
                        }
                        if k == at {
                            assert(times_before[l0] < time);
                        } else if l == at {
                            assert(k < at);
                            if at > 0 {
                                assert(times_before[at - 1] >= time);
                                if k < at - 1 {
                                    assert(more_recent(
                                        apps@,
                                        *recent,
                                        before[k] as int,
                                        before[at - 1] as int,
                                    ));
                                }
                            }
                        }
                    }
                    assert forall|k: int| 0 <= k < rows@.len() implies (#[trigger] rows@[k]) < i + 1
                        && was_used(apps@, ids, *recent, rows@[k] as int) && times@[k]
                        == last_used(apps@, *recent, rows@[k] as int) by {
                        if k < at {
                            assert(rows@[k] == before[k]);
                        } else if k > at {
                            assert(rows@[k] == before[k - 1]);
                        }
                    }
                    assert forall|h: usize|
                        h < i + 1 && #[trigger] was_used(
                            apps@,
                            ids,
                            *recent,
                            h as int,
                        ) implies rows@.contains(h) by {
                        if h == i {
                            assert(rows@[at as int] == h);
                        } else {
                            assert(before.contains(h));
                            let k = choose|k: int| 0 <= k < before.len() && before[k] == h;
                            if k < at {
                                assert(rows@[k] == h);
                            } else {
                                assert(rows@[k + 1] == h);
                            }
                        }
                    }
                },
                None => {},
            }
        }
        i += 1;
    }
    let ghost all = rows@;
    rows.truncate(RECENT_SHOWN);
    proof {
        assert forall|h: usize|
            #[trigger]
            was_used(apps@, ids, *recent, h as int) && !rows@.contains(h) implies rows@.len()
            == RECENT_SHOWN && forall|k: int|
            0 <= k < rows@.len() ==> more_recent(
                apps@,
                *recent,
                (#[trigger] rows@[k]) as int,
                h as int,
            ) by {
            assert(all.contains(h));
            let l = choose|l: int| 0 <= l < all.len() && all[l] == h;
            if l < rows@.len() {
                assert(rows@[l] == h);
            }
            assert forall|k: int| 0 <= k < rows@.len() implies more_recent(
                apps@,
                *recent,
                (#[trigger] rows@[k]) as int,
                h as int,
            ) by {
                assert(rows@[k] == all[k]);
            }
        }
        assert forall|k: int, l: int| 0 <= k < l < rows@.len() implies more_recent(
            apps@,
            *recent,
            (#[trigger] rows@[k]) as int,
            (#[trigger] rows@[l]) as int,
        ) by {
            assert(rows@[k] == all[k] && rows@[l] == all[l]);
        }
        assert forall|k: int| 0 <= k < rows@.len() implies was_used(
            apps@,
            ids,
            *recent,
            (#[trigger] rows@[k]) as int,
        ) by {
            assert(rows@[k] == all[k]);
        }
    }
    rows
}

/// The names of the entries at `rows`.
pub open spec fn names_at(apps: Seq<AppEntry>, rows: Seq<usize>) -> Seq<Seq<char>> {
    rows.map_values(|i: usize| apps[i as int].name@)
}

/// The entries of the list that are not shown above it: those whose name none
/// of the recently used entries has.
pub open spec fn remaining(
    apps: Seq<AppEntry>,
    visible: Seq<usize>,
    recent_rows: Seq<usize>,
) -> Seq<usize> {
    visible.filter(|i: usize| !names_at(apps, recent_rows).contains(apps[i as int].name@))
}

/// The positions exist.
pub open spec fn in_range(rows: Seq<usize>, n: nat) -> bool {
    forall|k: int| 0 <= k < rows.len() ==> (#[trigger] rows[k]) < n
}

/// The entries of the list that are not shown among the recently used ones,
/// under their own or another category.
pub fn remaining_apps(
    apps: &Vec<AppEntry>,
    visible: &Vec<usize>,
    recent_rows: &Vec<usize>,
) -> (r: Vec<usize>)
    requires
        in_range(visible@, apps@.len()),
        in_range(recent_rows@, apps@.len()),
    ensures
        r@ == remaining(apps@, visible@, recent_rows@),
{
    let ghost names = names_at(apps@, recent_rows@);
    let ghost keep = |i: usize| !names.contains(apps@[i as int].name@);
    let mut shown: Vec<String> = Vec::new();
    let mut j: usize = 0;
    while j < recent_rows.len()
        invariant
            j <= recent_rows.len(),
            in_range(recent_rows@, apps@.len()),
            names == names_at(apps@, recent_rows@),
            shown.deep_view() == names.take(j as int),
        decreases recent_rows.len() - j,
    {
        let ghost before = shown.deep_view();
        shown.push(apps[recent_rows[j]].name.clone());
        assert(shown.deep_view() == before.push(names[j as int]));
        assert(names.take(j + 1) == names.take(j as int).push(names[j as int]));
        j += 1;
    }
    assert(names.take(j as int) == names);
    let mut r: Vec<usize> = Vec::new();
    let mut k: usize = 0;
    proof {
        reveal(Seq::filter);
    }
    while k < visible.len()
        invariant
            k <= visible.len(),
            in_range(visible@, apps@.len()),
            shown.deep_view() == names,
            keep == (|i: usize| !names.contains(apps@[i as int].name@)),
            r@ == visible@.take(k as int).filter(keep),
        decreases visible.len() - k,
    {
        let i: usize = visible[k];
        proof {
            reveal(Seq::filter);
            assert(visible@.take(k + 1).drop_last() == visible@.take(k as int));
            assert(visible@.take(k + 1).last() == i);
        }
        if !is_among(&shown, &apps[i].name) {
            r.push(i);
        }
        k += 1;
    }
    assert(visible@.take(k as int) == visible@);
    r
}

/// The title of the category with the id `id`: the name of the first category
/// that has it, else the id itself.
pub open spec fn category_title(categories: Seq<Category>, id: Seq<char>) -> Seq<char>
    decreases categories.len(),
{
    if categories.len() == 0 {
        id
    } else if categories[0].id@ == id {
        categories[0].name@
    } else {
        category_title(categories.skip(1), id)
    }
}

/// The title under which the entries of a category stand.
pub fn title_of(categories: &Vec<Category>, id: &String) -> (r: String)
    ensures
        r@ == category_title(categories@, id@),
{
    let mut k: usize = 0;
    assert(categories@.skip(0) == categories@);
    while k < categories.len()
        invariant
            k <= categories.len(),
            category_title(categories@.skip(k as int), id@) == category_title(categories@, id@),
        decreases categories.len() - k,
    {
        if categories[k].id == *id {
            return categories[k].name.clone();
        }
        assert(categories@.skip(k as int).skip(1) == categories@.skip(k + 1));
        k += 1;
    }
    id.clone()
}

/// A row of the list.
#[derive(Debug, PartialEq, Eq)]
pub enum Row {
    /// The heading of a category.
    Category(String),
    /// The heading of a section inside a category.
    Section(String),
    /// The entry at this position of the configuration.
    App(usize),
}

/// What a row shows.
pub enum RowView {
    Category(Seq<char>),
    Section(Seq<char>),
    App(int),
}

impl View for Row {
    type V = RowView;

    open spec fn view(&self) -> RowView {
        match self {
            Row::Category(s) => RowView::Category(s@),
            Row::Section(s) => RowView::Section(s@),
            Row::App(i) => RowView::App(*i as int),
        }
    }
}

/// What a list of rows shows.
pub open spec fn rows_view(rows: Seq<Row>) -> Seq<RowView> {
    rows.map_values(|r: Row| r@)
}

/// The heading of the category stands above entry `i`: the list is grouped and
/// the entry before it belongs to another category, or there is none.
pub open spec fn opens_category(
    apps: Seq<AppEntry>,
    grouped: bool,
    above: Option<usize>,
    i: usize,
) -> bool {
    grouped && (above matches Some(h) ==> apps[h as int].category@ != apps[i as int].category@)
}

/// The section in which entry `i` would stand without a heading of its own:
/// that of the entry before it, unless a category begins.
pub open spec fn open_section(
    apps: Seq<AppEntry>,
    grouped: bool,
    above: Option<usize>,
    i: usize,
) -> Option<Seq<char>> {
    match above {
        Some(h) if !opens_category(apps, grouped, above, i) => opt_view(apps[h as int].section),
        _ => None,
    }
}

/// The rows of entry `i`: the headings that stand above it, and itself.
pub open spec fn rows_of(
    apps: Seq<AppEntry>,
    categories: Seq<Category>,
    grouped: bool,
    above: Option<usize>,
    i: usize,
) -> Seq<RowView> {
    let a = apps[i as int];
    let category = if opens_category(apps, grouped, above, i) {
        seq![RowView::Category(category_title(categories, a.category@))]
    } else {
        Seq::empty()
    };
    let section = match a.section {
        Some(s) if open_section(apps, grouped, above, i) != Some(s@) => seq![
            RowView::Section(s@),
        ],
        _ => Seq::empty(),
    };
    category + section + seq![RowView::App(i as int)]
}

/// The entry before the last one.
pub open spec fn above_last(list: Seq<usize>) -> Option<usize> {
    if list.len() > 1 {
        Some(list[list.len() - 2])
    } else {
        None
    }
}

/// The rows of the entries at `list`, with the headings between them.
pub open spec fn layout(
    apps: Seq<AppEntry>,
    categories: Seq<Category>,
    grouped: bool,
    list: Seq<usize>,
) -> Seq<RowView>
    decreases list.len(),
{
    if list.len() == 0 {
        Seq::empty()
    } else {
        layout(apps, categories, grouped, list.drop_last()) + rows_of(
            apps,
            categories,
            grouped,
            above_last(list),
            list.last(),
        )
    }
}

fn same_section(a: &Option<String>, b: &Option<String>) -> (r: bool)
    ensures
        r == (opt_view(*a) == opt_view(*b)),
{
    match (a, b) {
        (Some(s), Some(t)) => *s == *t,
        (None, None) => true,
        _ => false,
    }
}

/// The rows of the entries at `list`. With `grouped`, a heading stands wherever
/// the category changes; a heading stands wherever the section changes.
pub fn layout_rows(
    apps: &Vec<AppEntry>,
    categories: &Vec<Category>,
    grouped: bool,
    list: &Vec<usize>,
) -> (r: Vec<Row>)
    requires
        in_range(list@, apps@.len()),
    ensures
        rows_view(r@) == layout(apps@, categories@, grouped, list@),
        forall|k: int|
            #![trigger r@[k]]
            0 <= k < r.len() && r@[k] is App && r@[k]->App_0 < apps.len()
                && apps@[r@[k]->App_0 as int].section is Some ==> exists|h: int|
                #![trigger r@[h]]
                0 <= h < k && r@[h] is Section && r@[h]->Section_0@
                    == apps@[r@[k]->App_0 as int].section->Some_0@ && forall|j: int|
                    h < j < k ==> (#[trigger] r@[j]) is App,
{
    let mut r: Vec<Row> = Vec::new();
    let mut k: usize = 0;
    while k < list.len()
        invariant
            k <= list.len(),
            in_range(list@, apps@.len()),
            rows_view(r@) == layout(apps@, categories@, grouped, list@.take(k as int)),
        decreases list.len() - k,
    {
        let i: usize = list[k];
        let a = &apps[i];
        let ghost before = rows_view(r@);
        let ghost next = list@.take(k + 1);
        let ghost above = above_last(next);
        let opens = grouped && (k == 0 || apps[list[k - 1]].category != a.category);
        assert(opens == opens_category(apps@, grouped, above, i));
        if opens {
            r.push(Row::Category(title_of(categories, &a.category)));
        }
        let ghost with_category = rows_view(r@);
        let begins = match &a.section {
            Some(s) => opens || k == 0 || !same_section(&apps[list[k - 1]].section, &a.section),
            None => false,
        };
        if begins {
            match &a.section {
                Some(s) => {
                    r.push(Row::Section(s.clone()));
                },
                None => {},
            }
        }
        let ghost with_section = rows_view(r@);
        r.push(Row::App(i));
        proof {
            assert(next.drop_last() == list@.take(k as int));
            assert(next.last() == i);
            assert(rows_view(r@) == with_section.push(RowView::App(i as int)));
            assert(rows_view(r@) == before + rows_of(apps@, categories@, grouped, above, i));
        }
        k += 1;
    }
    assert(list@.take(k as int) == list@);
    proof {
        let shown = rows_view(r@);
        assert forall|k: int|
            #![trigger r@[k]]
            0 <= k < r.len() && r@[k] is App && r@[k]->App_0 < apps.len()
                && apps@[r@[k]->App_0 as int].section is Some implies exists|h: int|
            #![trigger r@[h]]
            0 <= h < k && r@[h] is Section && r@[h]->Section_0@
                == apps@[r@[k]->App_0 as int].section->Some_0@ && forall|j: int|
                h < j < k ==> (#[trigger] r@[j]) is App by {
            assert(shown[k] == r@[k]@);
            law_sections_are_headed(apps@, categories@, grouped, list@, k);
            let s = apps@[r@[k]->App_0 as int].section->Some_0@;
            let h = choose|h: int|
                0 <= h < k && #[trigger] shown[h] == RowView::Section(s) && forall|j: int|
                    h < j < k ==> (#[trigger] shown[j]) is App;
            assert(shown[h] == r@[h]@);
            assert forall|j: int| h < j < k implies (#[trigger] r@[j]) is App by {
                assert(shown[j] == r@[j]@);
            }
        }
    }
    r
}

/// A choice of the category sidebar.
#[derive(Debug)]
pub struct Tab {
    /// The category, or none for all applications.
    pub id: Option<String>,
    pub label: String,
    /// The choice in force.
    pub active: bool,
}

/// How many entries are not hidden.
pub open spec fn unhidden_count(apps: Seq<AppEntry>, locked: Seq<Seq<char>>) -> nat {
    indices_where(apps.len(), |i: int| !locked.contains(apps[i].category@)).len()
}

/// The entry belongs to a category.
pub open spec fn belongs_to(a: AppEntry, id: Seq<char>) -> bool {
    a.category@ == id
}

/// How many entries belong to a category.
pub open spec fn category_count(apps: Seq<AppEntry>, id: Seq<char>) -> nat {
    indices_where(apps.len(), |i: int| belongs_to(apps[i], id)).len()
}

/// A name and, behind it, a number in parentheses.
pub open spec fn counted(name: Seq<char>, n: nat) -> Seq<char> {
    name + "  ("@ + decimal(n) + ")"@
}

/// The label of a category: a lock and its name while it is locked, else its
/// name and the number of its entries.
pub open spec fn category_label(
    apps: Seq<AppEntry>,
    c: Category,
    locked: Seq<Seq<char>>,
) -> Seq<char> {
    if locked.contains(c.id@) {
        "\u{1f512} "@ + c.name@
    } else {
        counted(c.name@, category_count(apps, c.id@))
    }
}

fn counted_text(name: &str, n: usize) -> (r: String)
    ensures
        r@ == counted(name@, n as nat),
{
    let mut r = name.to_owned();
    r.append("  (");
    r.append(number_text(n as u64).as_str());
    r.append(")");
    r
}

fn count_unhidden(apps: &Vec<AppEntry>, locked: &Vec<String>) -> (r: usize)
    ensures
        r == unhidden_count(apps@, locked.deep_view()),
{
    let mut r: usize = 0;
    let mut i: usize = 0;
    let ghost p = |j: int| !locked.deep_view().contains(apps@[j].category@);
    while i < apps.len()
        invariant
            i <= apps.len(),
            p == (|j: int| !locked.deep_view().contains(apps@[j].category@)),
            r == indices_where(i as nat, p).len(),
            r <= i,
        decreases apps.len() - i,
    {
        if !is_among(locked, &apps[i].category) {
            r += 1;
        }
        i += 1;
    }
    r
}

fn count_in_category(apps: &Vec<AppEntry>, id: &String) -> (r: usize)
    ensures
        r == category_count(apps@, id@),
{
    let mut r: usize = 0;
    let mut i: usize = 0;
    let ghost p = |j: int| belongs_to(apps@[j], id@);
    while i < apps.len()
        invariant
            i <= apps.len(),
            p == (|j: int| belongs_to(apps@[j], id@)),
            r == indices_where(i as nat, p).len(),
            r <= i,
        decreases apps.len() - i,
    {
        if apps[i].category == *id {
            r += 1;
        }
        i += 1;
    }
    r
}

/// The choices of the category sidebar: all applications, and each category in
/// the order of the configuration.
pub fn sidebar(
    apps: &Vec<AppEntry>,
    categories: &Vec<Category>,
    locked: &Vec<String>,
    active: &Option<String>,
) -> (r: Vec<Tab>)
    ensures
        r.len() == categories.len() + 1,
        r[0].id is None,
        r[0].label@ == counted("All applications"@, unhidden_count(apps@, locked.deep_view())),
        r[0].active == (active is None),
        forall|k: int|
            0 <= k < categories.len() ==> {
                let c = #[trigger] categories[k];
                let tab = r[k + 1];
                &&& opt_view(tab.id) == Some(c.id@)
                &&& tab.label@ == category_label(apps@, c, locked.deep_view())
                &&& tab.active == (opt_view(*active) == Some(c.id@))
            },
{
    let mut r: Vec<Tab> = Vec::new();
    r.push(
        Tab {
            id: None,
            label: counted_text("All applications", count_unhidden(apps, locked)),
            active: active.is_none(),
        },
    );
    let mut k: usize = 0;
    while k < categories.len()
        invariant
            k <= categories.len(),
            r.len() == k + 1,
            r[0].id is None,
            r[0].label@ == counted("All applications"@, unhidden_count(apps@, locked.deep_view())),
            r[0].active == (active is None),
            forall|j: int|
                0 <= j < k ==> {
                    let c = #[trigger] categories[j];
                    let tab = r[j + 1];
                    &&& opt_view(tab.id) == Some(c.id@)
                    &&& tab.label@ == category_label(apps@, c, locked.deep_view())
                    &&& tab.active == (opt_view(*active) == Some(c.id@))
                },
        decreases categories.len() - k,
    {
        let c = &categories[k];
        let label = if is_among(locked, &c.id) {
            let mut label = "\u{1f512} ".to_owned();
            label.append(c.name.as_str());
            label
        } else {
            counted_text(c.name.as_str(), count_in_category(apps, &c.id))
        };
        let chosen = match active {
            Some(id) => *id == c.id,
            None => false,
        };
        r.push(Tab { id: Some(c.id.clone()), label, active: chosen });
        k += 1;
    }
    r
}

} // verus!
