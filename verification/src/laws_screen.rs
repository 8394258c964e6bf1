//! What holds of the screen: which entries are listed, in which order, under
//! which headings, and which of them the keys choose.

use vstd::prelude::*;
use vstd::string::*;
use crate::config::{AppEntry, Category};
use crate::frame::{first_at, step, Frame};
use crate::launch::opt_view;
use crate::laws::lemma_filter;
use crate::laws_launch::law_search_looks_at_every_field;
use crate::listing::{
    are_recent_rows, category_count, category_label, category_title, first_of_name, indices_where,
    is_listed, is_locked, layout, lemma_indices_where, listed, more_recent, names_at, remaining,
    unhidden_count, was_used, RowView,
};
use crate::recent::RecentFile;
use crate::state::App;
use crate::text::{has_text, lowercase, words};

verus! {

/// Where an entry has a section, the nearest heading above it is that of the
/// section: only entries stand between the two.
pub proof fn law_sections_are_headed(
    apps: Seq<AppEntry>,
    categories: Seq<Category>,
    grouped: bool,
    list: Seq<usize>,
    r: int,
)
    requires
        0 <= r < layout(apps, categories, grouped, list).len(),
        layout(apps, categories, grouped, list)[r] is App,
        apps[layout(apps, categories, grouped, list)[r]->App_0].section is Some,
    ensures
        ({
            let rows = layout(apps, categories, grouped, list);
            let s = apps[rows[r]->App_0].section->Some_0@;
            exists|h: int|
                0 <= h < r && #[trigger] rows[h] == RowView::Section(s) && forall|k: int|
                    h < k < r ==> (#[trigger] rows[k]) is App
        }),
    decreases list.len(),
{
    let rows = layout(apps, categories, grouped, list);
    let s = apps[rows[r]->App_0].section->Some_0@;
    let shorter = list.drop_last();
    let before = layout(apps, categories, grouped, shorter);
    if r < before.len() {
        assert(rows[r] == before[r]);
        law_sections_are_headed(apps, categories, grouped, shorter, r);
        let h = choose|h: int|
            0 <= h < r && #[trigger] before[h] == RowView::Section(s) && forall|k: int|
                h < k < r ==> (#[trigger] before[k]) is App;
        assert(rows[h] == before[h]);
        assert forall|k: int| h < k < r implies (#[trigger] rows[k]) is App by {
            assert(rows[k] == before[k]);
        }
    } else {
        assert(r == rows.len() - 1);
        assert(rows[r] == RowView::App(list.last() as int));
        if rows.len() - before.len() >= 2 {
            assert(rows[r - 1] == RowView::Section(s));
        } else {
            let p = list[list.len() - 2];
            assert(shorter.last() == p);
            assert(before.last() == RowView::App(p as int));
            law_sections_are_headed(apps, categories, grouped, shorter, before.len() - 1);
            let h = choose|h: int|
                0 <= h < before.len() - 1 && #[trigger] before[h] == RowView::Section(s)
                    && forall|k: int| h < k < before.len() - 1 ==> (#[trigger] before[k]) is App;
            assert(rows[h] == before[h]);
            assert forall|k: int| h < k < r implies (#[trigger] rows[k]) is App by {
                assert(rows[k] == before[k]);
            }
        }
    }
}

/// In a grouped list the nearest heading of a category above an entry is that
/// of its own category.
pub proof fn law_categories_are_headed(
    apps: Seq<AppEntry>,
    categories: Seq<Category>,
    list: Seq<usize>,
    r: int,
)
    requires
        0 <= r < layout(apps, categories, true, list).len(),
        layout(apps, categories, true, list)[r] is App,
    ensures
        ({
            let rows = layout(apps, categories, true, list);
            let title = category_title(categories, apps[rows[r]->App_0].category@);
            exists|h: int|
                0 <= h < r && #[trigger] rows[h] == RowView::Category(title) && forall|k: int|
                    h < k < r ==> !((#[trigger] rows[k]) is Category)
        }),
    decreases list.len(),
{
    let rows = layout(apps, categories, true, list);
    let title = category_title(categories, apps[rows[r]->App_0].category@);
    let shorter = list.drop_last();
    let before = layout(apps, categories, true, shorter);
    if r < before.len() {
        assert(rows[r] == before[r]);
        law_categories_are_headed(apps, categories, shorter, r);
        let h = choose|h: int|
            0 <= h < r && #[trigger] before[h] == RowView::Category(title) && forall|k: int|
                h < k < r ==> !((#[trigger] before[k]) is Category);
        assert(rows[h] == before[h]);
        assert forall|k: int| h < k < r implies !((#[trigger] rows[k]) is Category) by {
            assert(rows[k] == before[k]);
        }
    } else {
        assert(r == rows.len() - 1);
        assert(rows[r] == RowView::App(list.last() as int));
        let first = rows[before.len() as int];
        if first is Category {
            assert(first == RowView::Category(title));
            assert forall|k: int| before.len() < k < r implies !((#[trigger] rows[k]) is Category) by {
            }
        } else {
            let p = list[list.len() - 2];
            assert(shorter.last() == p);
            assert(before.last() == RowView::App(p as int));
            law_categories_are_headed(apps, categories, shorter, before.len() - 1);
            let h = choose|h: int|
                0 <= h < before.len() - 1 && #[trigger] before[h] == RowView::Category(title)
                    && forall|k: int|
                    h < k < before.len() - 1 ==> !((#[trigger] before[k]) is Category);
            assert(rows[h] == before[h]);
            assert forall|k: int| h < k < r implies !((#[trigger] rows[k]) is Category) by {
                if k < before.len() {
                    assert(rows[k] == before[k]);
                }
            }
        }
    }
}

/// A heading stands only above what it heads: below that of a section an entry
/// of the section, below that of a category an entry of the category, with at
/// most the heading of its section between them. A list that is not grouped has
/// no headings of categories.
pub proof fn law_headings_head_an_entry(
    apps: Seq<AppEntry>,
    categories: Seq<Category>,
    grouped: bool,
    list: Seq<usize>,
    h: int,
)
    requires
        0 <= h < layout(apps, categories, grouped, list).len(),
    ensures
        ({
            let rows = layout(apps, categories, grouped, list);
            &&& rows[h] matches RowView::Section(s) ==> {
                &&& h + 1 < rows.len()
                &&& rows[h + 1] is App
                &&& apps[rows[h + 1]->App_0].section is Some
                &&& apps[rows[h + 1]->App_0].section->Some_0@ == s
            }
            &&& rows[h] matches RowView::Category(title) ==> {
                let next = if h + 1 < rows.len() && rows[h + 1] is Section {
                    h + 2
                } else {
                    h + 1
                };
                &&& grouped
                &&& next < rows.len()
                &&& rows[next] is App
                &&& category_title(categories, apps[rows[next]->App_0].category@) == title
            }
        }),
    decreases list.len(),
{
    let rows = layout(apps, categories, grouped, list);
    let shorter = list.drop_last();
    let before = layout(apps, categories, grouped, shorter);
    if h < before.len() {
        assert(rows[h] == before[h]);
        law_headings_head_an_entry(apps, categories, grouped, shorter, h);
        assert(h + 1 < before.len() ==> rows[h + 1] == before[h + 1]);
        assert(h + 2 < before.len() ==> rows[h + 2] == before[h + 2]);
    } else {
        assert(rows.last() == RowView::App(list.last() as int));
    }
}

/// An entry below another one: with a heading of its category where the list is
/// grouped and the category is another one, with a heading of its section where
/// it has one that is another one or that a new category begins, and without
/// any heading otherwise.
pub proof fn law_headings_mark_changes(
    apps: Seq<AppEntry>,
    categories: Seq<Category>,
    grouped: bool,
    list: Seq<usize>,
    p: usize,
    i: usize,
)
    ensures
        ({
            let before = layout(apps, categories, grouped, list.push(p));
            let after = layout(apps, categories, grouped, list.push(p).push(i));
            let above = apps[p as int];
            let a = apps[i as int];
            let title = RowView::Category(category_title(categories, a.category@));
            let new = grouped && above.category@ != a.category@;
            let same = above.section is Some && above.section->Some_0@ == a.section->Some_0@;
            &&& new && a.section is Some ==> after == before + seq![
                title,
                RowView::Section(a.section->Some_0@),
                RowView::App(i as int),
            ]
            &&& new && a.section is None ==> after == before + seq![title, RowView::App(i as int)]
            &&& !new && a.section is Some && !same ==> after == before + seq![
                RowView::Section(a.section->Some_0@),
                RowView::App(i as int),
            ]
            &&& !new && (a.section is None || same) ==> after == before + seq![
                RowView::App(i as int),
            ]
        }),
{
    let list2 = list.push(p).push(i);
    assert(list2.drop_last() == list.push(p));
    assert(list2.last() == i);
    assert(list2[list2.len() - 2] == p);
}

/// The first entry: a grouped list begins with the heading of its category, and
/// the heading of its section follows where it has one.
pub proof fn law_list_begins_with_headings(
    apps: Seq<AppEntry>,
    categories: Seq<Category>,
    grouped: bool,
    i: usize,
)
    ensures
        ({
            let rows = layout(apps, categories, grouped, seq![i]);
            let a = apps[i as int];
            let title = RowView::Category(category_title(categories, a.category@));
            let app = RowView::App(i as int);
            &&& grouped && a.section is Some ==> rows == seq![
                title,
                RowView::Section(a.section->Some_0@),
                app,
            ]
            &&& grouped && a.section is None ==> rows == seq![title, app]
            &&& !grouped && a.section is Some ==> rows == seq![
                RowView::Section(a.section->Some_0@),
                app,
            ]
            &&& !grouped && a.section is None ==> rows == seq![app]
        }),
{
    let list = seq![i];
    assert(list.drop_last() == Seq::<usize>::empty());
    assert(layout(apps, categories, grouped, list.drop_last()) == Seq::<RowView>::empty());
}

/// The title of a category is the name of the first one that has the id, and
/// the id where none has it.
pub proof fn law_category_title(categories: Seq<Category>, id: Seq<char>, k: int)
    ensures
        0 <= k < categories.len() && categories[k].id@ == id && (forall|j: int|
            0 <= j < k ==> (#[trigger] categories[j]).id@ != id) ==> category_title(categories, id)
            == categories[k].name@,
        (forall|j: int| 0 <= j < categories.len() ==> (#[trigger] categories[j]).id@ != id)
            ==> category_title(categories, id) == id,
    decreases categories.len(),
{
    if categories.len() > 0 {
        let rest = categories.skip(1);
        law_category_title(rest, id, k - 1);
        assert forall|j: int| 0 <= j < rest.len() implies (#[trigger] rest[j]) == categories[j
            + 1] by {
        }
        if k > 0 && k < categories.len() {
            assert(rest[k - 1] == categories[k]);
        }
    }
}

/// The Enter key launches the highlighted entry while it is listed. Otherwise,
/// while something is searched and found, it launches an entry of the list
/// before which none is listed; and nothing in every other case.
pub proof fn law_enter_launches_the_first_found(app: App, f: Frame)
    requires
        app.wf(),
        app.lists(f),
    ensures
        ({
            let chosen = app.highlighted matches Some(h) && f.visible@.contains(h);
            let r = app.entered(f);
            &&& chosen ==> r == app.highlighted
            &&& !chosen && app.search@.len() > 0 && f.visible.len() > 0 ==> {
                &&& r is Some
                &&& f.visible@.contains(r->Some_0)
                &&& forall|i: usize| #[trigger] f.visible@.contains(i) ==> r->Some_0 <= i
            }
            &&& !chosen && (app.search@.len() == 0 || f.visible.len() == 0) ==> r is None
        }),
{
    lemma_visible_ascend(app, f);
    if f.visible.len() > 0 {
        assert(f.visible@.contains(f.visible@[0]));
        assert forall|i: usize| #[trigger] f.visible@.contains(i) implies f.visible@[0] <= i by {
            let k = choose|k: int| 0 <= k < f.visible@.len() && f.visible@[k] == i;
            if k > 0 {
                assert(f.visible@[0] < f.visible@[k]);
            }
        }
    }
}

proof fn lemma_visible_ascend(app: App, f: Frame)
    requires
        app.wf(),
        app.lists(f),
    ensures
        forall|k: int, l: int|
            0 <= k < l < f.visible@.len() ==> (#[trigger] f.visible@[k]) < (
            #[trigger] f.visible@[l]),
        forall|i: usize| #[trigger]
            f.visible@.contains(i) <==> i < app.apps().len() && is_listed(
                app.apps()[i as int],
                f.locked.deep_view(),
                opt_view(app.active_category),
                app.search@,
            ),
{
    let p = |i: int|
        is_listed(
            app.apps()[i],
            f.locked.deep_view(),
            opt_view(app.active_category),
            app.search@,
        );
    lemma_indices_where(app.apps().len(), p);
    assert(f.visible@ == indices_where(app.apps().len(), p));
}

/// An entry is listed just where it is open, of the chosen category if there is
/// one, and every word of the search stands in one of its texts. It is open
/// where no category of its id is both protected and locked. The list keeps the
/// order of the configuration.
pub proof fn law_what_is_listed(app: App, f: Frame, i: usize)
    requires
        app.wf(),
        app.lists(f),
        i < app.apps().len(),
    ensures
        ({
            let a = app.apps()[i as int];
            let open = forall|k: int|
                0 <= k < app.categories().len() && (#[trigger] app.categories()[k]).id@
                    == a.category@ ==> app.categories()[k].passwords.len() == 0
                    || app.unlocked.deep_view().contains(a.category@);
            let chosen = app.active_category matches Some(c) ==> c@ == a.category@;
            let found = forall|k: int|
                #![trigger words(app.search@)[k]]
                0 <= k < words(app.search@).len() ==> {
                    let word = lowercase(words(app.search@)[k]);
                    ||| has_text(lowercase(a.name@), word)
                    ||| has_text(lowercase(a.description@), word)
                    ||| exists|t: int|
                        0 <= t < a.tags.len() && has_text(
                            lowercase(#[trigger] a.tags@[t]@),
                            word,
                        )
                };
            f.visible@.contains(i) <==> open && chosen && found
        }),
        forall|k: int, l: int|
            0 <= k < l < f.visible@.len() ==> (#[trigger] f.visible@[k]) < (
            #[trigger] f.visible@[l]),
{
    lemma_visible_ascend(app, f);
    law_search_looks_at_every_field(app.apps()[i as int], app.search@);
    let id = app.apps()[i as int].category@;
    assert(f.locked.deep_view().contains(id) <==> is_locked(
        app.categories(),
        app.unlocked.deep_view(),
        id,
    ));
}

/// An open entry that was ever launched has a first entry of its name.
proof fn lemma_first_of_name(apps: Seq<AppEntry>, locked: Seq<Seq<char>>, i: int) -> (j: int)
    requires
        0 <= i < apps.len(),
        !locked.contains(apps[i].category@),
    ensures
        0 <= j <= i,
        apps[j].name@ == apps[i].name@,
        first_of_name(apps, locked, j),
    decreases i,
{
    if first_of_name(apps, locked, i) {
        i
    } else {
        let h = choose|h: int|
            0 <= h < i && !(locked.contains(apps[h].category@) || (#[trigger] apps[h]).name@
                != apps[i].name@);
        lemma_first_of_name(apps, locked, h)
    }
}

/// The recently used entries: five at most, each of them open and in the launch
/// history, no two of one name, the later launch first, and among equals the one
/// that comes first in the configuration.
pub proof fn law_recent_rows_are_recent(
    apps: Seq<AppEntry>,
    locked: Seq<Seq<char>>,
    recent: RecentFile,
    rows: Seq<usize>,
)
    requires
        are_recent_rows(apps, locked, recent, rows),
    ensures
        rows.len() <= 5,
        forall|k: int|
            #![trigger rows[k]]
            0 <= k < rows.len() ==> rows[k] < apps.len() && !locked.contains(
                apps[rows[k] as int].category@,
            ) && recent@.contains_key(apps[rows[k] as int].name@),
        forall|k: int, l: int|
            #![trigger rows[k], rows[l]]
            0 <= k < l < rows.len() ==> {
                let first = apps[rows[k] as int].name@;
                let second = apps[rows[l] as int].name@;
                &&& first != second
                &&& recent@[first].last_epoch >= recent@[second].last_epoch
                &&& recent@[first].last_epoch == recent@[second].last_epoch ==> rows[k] < rows[l]
            },
{
    assert forall|k: int, l: int| 0 <= k < l < rows.len() implies apps[(
    #[trigger] rows[k]) as int].name@ != apps[(#[trigger] rows[l]) as int].name@ by {
        let a = rows[k] as int;
        let b = rows[l] as int;
        assert(was_used(apps, locked, recent, a) && was_used(apps, locked, recent, b));
        assert(more_recent(apps, recent, a, b));
        if apps[a].name@ == apps[b].name@ {
            assert(a < b);
            assert(first_of_name(apps, locked, b));
        }
    }
    assert forall|k: int|
        #![trigger rows[k]]
        0 <= k < rows.len() implies rows[k] < apps.len() && !locked.contains(
        apps[rows[k] as int].category@,
    ) && recent@.contains_key(apps[rows[k] as int].name@) by {
        assert(was_used(apps, locked, recent, rows[k] as int));
    }
    assert forall|k: int, l: int|
        #![trigger rows[k], rows[l]]
        0 <= k < l < rows.len() implies {
        let first = apps[rows[k] as int].name@;
        let second = apps[rows[l] as int].name@;
        &&& recent@[first].last_epoch >= recent@[second].last_epoch
        &&& recent@[first].last_epoch == recent@[second].last_epoch ==> rows[k] < rows[l]
    } by {
        assert(more_recent(apps, recent, rows[k] as int, rows[l] as int));
    }
}

/// No recently used entry is left out: where an open entry is in the launch
/// history and none of the rows has its name, there are five rows, and each of
/// them was launched at least as late.
pub proof fn law_recent_entries_are_shown(
    apps: Seq<AppEntry>,
    locked: Seq<Seq<char>>,
    recent: RecentFile,
    rows: Seq<usize>,
    i: usize,
)
    requires
        are_recent_rows(apps, locked, recent, rows),
        apps.len() <= usize::MAX,
        i < apps.len(),
        !locked.contains(apps[i as int].category@),
        recent@.contains_key(apps[i as int].name@),
        forall|k: int|
            #![trigger rows[k]]
            0 <= k < rows.len() ==> apps[rows[k] as int].name@ != apps[i as int].name@,
    ensures
        rows.len() == 5,
        forall|k: int|
            #![trigger rows[k]]
            0 <= k < rows.len() ==> recent@[apps[rows[k] as int].name@].last_epoch
                >= recent@[apps[i as int].name@].last_epoch,
{
    let j = lemma_first_of_name(apps, locked, i as int);
    let u = j as usize;
    assert(was_used(apps, locked, recent, u as int));
    if rows.contains(u) {
        let k = choose|k: int| 0 <= k < rows.len() && rows[k] == u;
        assert(apps[rows[k] as int].name@ == apps[i as int].name@);
    }
    assert forall|k: int|
        #![trigger rows[k]]
        0 <= k < rows.len() implies recent@[apps[rows[k] as int].name@].last_epoch
        >= recent@[apps[i as int].name@].last_epoch by {
        assert(more_recent(apps, recent, rows[k] as int, u as int));
    }
}

/// Of several open entries with one name the first stands for them among the
/// recently used ones.
pub proof fn law_recent_row_is_the_first_of_its_name(
    apps: Seq<AppEntry>,
    locked: Seq<Seq<char>>,
    recent: RecentFile,
    rows: Seq<usize>,
    k: int,
    j: int,
)
    requires
        are_recent_rows(apps, locked, recent, rows),
        0 <= k < rows.len(),
        0 <= j < apps.len(),
        !locked.contains(apps[j].category@),
        apps[j].name@ == apps[rows[k] as int].name@,
    ensures
        rows[k] <= j,
{
    assert(was_used(apps, locked, recent, rows[k] as int));
    if j < rows[k] {
        assert(apps[j].name@ != apps[rows[k] as int].name@);
    }
}

/// Recently used entries are shown only while all categories are listed and
/// nothing is searched. The rest of the screen is the list, in its order,
/// without the entries that have the name of one of them.
pub proof fn law_screen_order(app: App, f: Frame)
    requires
        app.wf(),
        app.lists(f),
    ensures
        app.active_category is Some || app.search@.len() > 0 ==> f.recent_rows.len() == 0,
        app.active_category is None && app.search@.len() == 0 ==> are_recent_rows(
            app.apps(),
            f.locked.deep_view(),
            app.recent,
            f.recent_rows@,
        ),
        f.display_order.len() >= f.recent_rows.len(),
        f.display_order@.take(f.recent_rows.len() as int) == f.recent_rows@,
        forall|k: int, l: int|
            f.recent_rows.len() <= k < l < f.display_order.len() ==> (
            #[trigger] f.display_order@[k]) < (#[trigger] f.display_order@[l]),
        forall|i: usize| #[trigger]
            f.display_order@.skip(f.recent_rows.len() as int).contains(i)
                <==> f.visible@.contains(i) && forall|k: int|
                #![trigger f.recent_rows@[k]]
                0 <= k < f.recent_rows.len() ==> app.apps()[f.recent_rows@[k] as int].name@
                    != app.apps()[i as int].name@,
{
    let apps = app.apps();
    let names = names_at(apps, f.recent_rows@);
    let keep = |i: usize| !names_at(apps, f.recent_rows@).contains(apps[i as int].name@);
    let rest = remaining(apps, f.visible@, f.recent_rows@);
    assert(rest == f.visible@.filter(keep));
    lemma_filter(f.visible@, keep);
    lemma_visible_ascend(app, f);
    lemma_filter_ascends(f.visible@, keep);
    let n = f.recent_rows.len() as int;
    assert(f.display_order@.take(n) == f.recent_rows@);
    assert(f.display_order@.skip(n) == rest);
    assert forall|k: int, l: int| n <= k < l < f.display_order.len() implies (
    #[trigger] f.display_order@[k]) < (#[trigger] f.display_order@[l]) by {
        assert(f.display_order@[k] == rest[k - n]);
        assert(f.display_order@[l] == rest[l - n]);
    }
    assert forall|i: usize| (!names.contains(apps[i as int].name@) <==> forall|k: int|
        #![trigger f.recent_rows@[k]]
        0 <= k < f.recent_rows.len() ==> apps[f.recent_rows@[k] as int].name@
            != apps[i as int].name@) && #[trigger] keep(i) == !names.contains(
        apps[i as int].name@,
    ) by {
        if !names.contains(apps[i as int].name@) {
            assert forall|k: int|
                #![trigger f.recent_rows@[k]]
                0 <= k < f.recent_rows.len() implies apps[f.recent_rows@[k] as int].name@
                != apps[i as int].name@ by {
                assert(names[k] == apps[f.recent_rows@[k] as int].name@);
            }
        } else {
            let k = choose|k: int| 0 <= k < names.len() && names[k] == apps[i as int].name@;
            assert(apps[f.recent_rows@[k] as int].name@ == apps[i as int].name@);
        }
    }
    assert forall|i: usize| #[trigger] f.display_order@.skip(n).contains(i) <==> f.visible@.contains(
        i,
    ) && forall|k: int|
        #![trigger f.recent_rows@[k]]
        0 <= k < f.recent_rows.len() ==> apps[f.recent_rows@[k] as int].name@
            != apps[i as int].name@ by {
        assert(rest.contains(i) <==> f.visible@.contains(i) && keep(i));
    }
}

proof fn lemma_filter_ascends(s: Seq<usize>, keep: spec_fn(usize) -> bool)
    requires
        forall|k: int, l: int| 0 <= k < l < s.len() ==> (#[trigger] s[k]) < (#[trigger] s[l]),
    ensures
        forall|k: int, l: int|
            0 <= k < l < s.filter(keep).len() ==> (#[trigger] s.filter(keep)[k]) < (
            #[trigger] s.filter(keep)[l]),
    decreases s.len(),
{
    reveal(Seq::filter);
    if s.len() > 0 {
        let shorter = s.drop_last();
        let before = shorter.filter(keep);
        lemma_filter_ascends(shorter, keep);
        lemma_filter(shorter, keep);
        assert forall|k: int| 0 <= k < before.len() implies (#[trigger] before[k]) < s.last() by {
            assert(before.contains(before[k]));
            let j = choose|j: int| 0 <= j < shorter.len() && shorter[j] == before[k];
            assert(s[j] < s[s.len() - 1]);
        }
    }
}

/// An arrow key moves to the neighbour: below, or above. At either end the
/// choice stays.
pub proof fn law_arrow_keys_move_to_the_neighbour(p: int, len: int)
    requires
        0 <= p < len,
    ensures
        0 <= step(p, len, true) < len,
        0 <= step(p, len, false) < len,
        p < len - 1 ==> step(p, len, true) - p == 1,
        p == len - 1 ==> step(p, len, true) == p,
        p > 0 ==> p - step(p, len, false) == 1,
        p == 0 ==> step(p, len, false) == p,
{
}

/// The place of an entry on the screen is the one at which it stands and before
/// which it does not; an entry of the screen has just one such place.
pub proof fn law_place_on_the_screen(order: Seq<usize>, x: usize, p: int, q: int)
    ensures
        first_at(order, x, p) ==> 0 <= p < order.len() && order[p] == x,
        first_at(order, x, p) && 0 <= q < order.len() && order[q] == x ==> p <= q,
        order.contains(x) <==> exists|h: int| #[trigger] first_at(order, x, h),
{
    if order.contains(x) {
        let k = choose|k: int| 0 <= k < order.len() && order[k] == x;
        lemma_first_at(order, x, k);
    }
    if exists|h: int| #[trigger] first_at(order, x, h) {
        let h = choose|h: int| #[trigger] first_at(order, x, h);
        assert(order[h] == x);
    }
}

proof fn lemma_first_at(order: Seq<usize>, x: usize, k: int)
    requires
        0 <= k < order.len(),
        order[k] == x,
    ensures
        exists|h: int| #[trigger] first_at(order, x, h),
    decreases k,
{
    if !first_at(order, x, k) {
        let q = choose|q: int| 0 <= q < k && order[q] == x;
        lemma_first_at(order, x, q);
    }
}

/// A password is asked for just where the chosen category is locked and is one
/// of the configuration; the question is about the first of its id.
pub proof fn law_locked_category_asks(app: App, f: Frame, r: Option<usize>)
    requires
        app.asks_for(f, r),
    ensures
        r is Some <==> (app.active_category matches Some(c) && f.locked.deep_view().contains(c@)
            && exists|j: int|
            0 <= j < app.categories().len() && (#[trigger] app.categories()[j]).id@ == c@),
        r matches Some(k) ==> k < app.categories().len() && (app.active_category matches Some(c)
            && app.categories()[k as int].id@ == c@ && forall|j: int|
            0 <= j < k ==> (#[trigger] app.categories()[j]).id@ != c@),
{
    if let Some(k) = r {
        assert(app.categories()[k as int].id@ == app.active_category->Some_0@);
    }
}

/// An entry more is counted among all just where its category is open, and in a
/// category just where it belongs to it.
pub proof fn law_counts_grow_with_the_entries(
    apps: Seq<AppEntry>,
    a: AppEntry,
    locked: Seq<Seq<char>>,
    id: Seq<char>,
)
    ensures
        unhidden_count(Seq::<AppEntry>::empty(), locked) == 0,
        category_count(Seq::<AppEntry>::empty(), id) == 0,
        unhidden_count(apps.push(a), locked) - unhidden_count(apps, locked) == if locked.contains(
            a.category@,
        ) {
            0int
        } else {
            1
        },
        category_count(apps.push(a), id) - category_count(apps, id) == if a.category@ == id {
            1int
        } else {
            0
        },
{
    let more = apps.push(a);
    let open = |i: int| !locked.contains(apps[i].category@);
    let open_more = |i: int| !locked.contains(more[i].category@);
    assert forall|i: int| 0 <= i < apps.len() implies #[trigger] open(i) == open_more(i) by {
        assert(more[i] == apps[i]);
    }
    lemma_alike(apps.len(), open, open_more);
    let inside = |i: int| crate::listing::belongs_to(apps[i], id);
    let inside_more = |i: int| crate::listing::belongs_to(more[i], id);
    assert forall|i: int| 0 <= i < apps.len() implies #[trigger] inside(i) == inside_more(i) by {
        assert(more[i] == apps[i]);
    }
    lemma_alike(apps.len(), inside, inside_more);
    assert(more[apps.len() as int] == a);
}

proof fn lemma_alike(n: nat, p: spec_fn(int) -> bool, q: spec_fn(int) -> bool)
    requires
        forall|i: int| 0 <= i < n ==> #[trigger] p(i) == q(i),
    ensures
        indices_where(n, p) == indices_where(n, q),
    decreases n,
{
    if n > 0 {
        lemma_alike((n - 1) as nat, p, q);
        assert(p(n - 1) == q(n - 1));
    }
}

/// The label of a locked category hides its size; that of an open one shows it
/// in parentheses.
pub proof fn law_category_label(apps: Seq<AppEntry>, c: Category, locked: Seq<Seq<char>>)
    ensures
        locked.contains(c.id@) ==> category_label(apps, c, locked) == seq!['\u{1f512}', ' ']
            + c.name@,
        !locked.contains(c.id@) ==> category_label(apps, c, locked) == c.name@ + seq![' ', ' ', '(']
            + crate::text::decimal(category_count(apps, c.id@)) + seq![')'],
{
    reveal_strlit("\u{1f512} ");
    reveal_strlit("  (");
    reveal_strlit(")");
    assert("\u{1f512} "@ == seq!['\u{1f512}', ' ']);
    assert("  ("@ == seq![' ', ' ', '(']);
    assert(")"@ == seq![')']);
}

} // verus!
