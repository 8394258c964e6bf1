//! What holds of the launcher as a whole.

use vstd::prelude::*;
use vstd::string::*;
use vstd::utf8::is_ascii_chars;
use crate::config::{
    all_ascii_lowered, all_found_in, all_lowercase, all_lowered_by_rule, config_warnings, found_in,
    AppEntry, Category, Config,
};
use crate::frame::{step, Frame};
use crate::launch::opt_view;
use crate::listing::{
    above_last, are_recent_rows, belongs_to, by_time, category_count, first_of_name, indices_where,
    is_listed, is_locked, layout, lemma_indices_where, listed, locks, more_recent, names_at,
    remaining, rows_of, unhidden_count, was_used, RowView, RECENT_SHOWN,
};
use crate::paths::{alphanumeric, safe_name};
use crate::recent::{
    distinct_names, history, lemma_history_entry, lemma_history_names, RecentEntry, RecentFile,
};
use crate::state::{App, ChildPoll, PendingLaunch, LAUNCH_COOLDOWN};
use crate::text::{
    all_white, ascii_lower, ascii_lowered, leading_white, leading_word, lemma_leading_bounds,
    lemma_trimmed_framed, lemma_words_ascii, lowered_by_rule, trimmed_start, white_space, words,
};
use crate::unlock::{ascii_unlocks, lemma_ascii_unlocks, unlocks, with_id};
use crate::watch::still_running;

verus! {

proof fn lemma_listed(app: App, f: Frame)
    requires
        app.wf(),
        app.lists(f),
    ensures
        forall|i: usize|
            #[trigger] f.visible@.contains(i) <==> i < app.apps().len() && is_listed(
                app.apps()[i as int],
                f.locked.deep_view(),
                opt_view(app.active_category),
                app.search@,
            ),
        f.visible@.no_duplicates(),
{
    let p = |i: int|
        is_listed(
            app.apps()[i],
            f.locked.deep_view(),
            opt_view(app.active_category),
            app.search@,
        );
    lemma_indices_where(app.apps().len(), p);
    assert(f.visible@ == indices_where(app.apps().len(), p));
}

/// What is filtered is kept just where it satisfies the condition, and nothing
/// appears twice that did not before.
pub proof fn lemma_filter<T>(s: Seq<T>, keep: spec_fn(T) -> bool)
    ensures
        forall|x: T| #[trigger] s.filter(keep).contains(x) <==> s.contains(x) && keep(x),
        s.no_duplicates() ==> s.filter(keep).no_duplicates(),
    decreases s.len(),
{
    reveal(Seq::filter);
    if s.len() > 0 {
        let shorter = s.drop_last();
        let last = s.last();
        lemma_filter(shorter, keep);
        let before = shorter.filter(keep);
        let all = s.filter(keep);
        assert forall|x: T| #[trigger] all.contains(x) <==> s.contains(x) && keep(x) by {
            if all.contains(x) {
                let k = choose|k: int| 0 <= k < all.len() && all[k] == x;
                if k < before.len() {
                    assert(before[k] == x);
                    assert(before.contains(x));
                    let j = choose|j: int| 0 <= j < shorter.len() && shorter[j] == x;
                    assert(s[j] == x);
                } else {
                    assert(s[s.len() - 1] == x);
                }
            }
            if s.contains(x) && keep(x) {
                let j = choose|j: int| 0 <= j < s.len() && s[j] == x;
                if j < shorter.len() {
                    assert(shorter[j] == x);
                    assert(before.contains(x));
                    let k = choose|k: int| 0 <= k < before.len() && before[k] == x;
                    assert(all[k] == x);
                } else {
                    assert(all[before.len() as int] == x);
                }
            }
        }
        if s.no_duplicates() {
            assert(shorter.no_duplicates());
            if keep(last) {
                assert(!before.contains(last)) by {
                    if before.contains(last) {
                        assert(shorter.contains(last));
                        let j = choose|j: int| 0 <= j < shorter.len() && shorter[j] == last;
                        assert(s[j] == s[s.len() - 1]);
                    }
                }
                assert forall|k: int, l: int| 0 <= k < all.len() && 0 <= l < all.len() && k
                    != l implies all[k] != all[l] by {
                    if k < before.len() && l < before.len() {
                        assert(before[k] != before[l]);
                    } else if k < before.len() {
                        assert(before.contains(before[k]));
                    } else {
                        assert(before.contains(before[l]));
                    }
                }
            }
        }
    }
}

/// The order of the screen holds the recently used entries and those of the
/// list whose name none of them has.
proof fn lemma_display_order(app: App, f: Frame)
    requires
        app.wf(),
        app.lists(f),
    ensures
        forall|i: usize|
            #[trigger] f.display_order@.contains(i) <==> f.recent_rows@.contains(i) || (
            f.visible@.contains(i) && !names_at(app.apps(), f.recent_rows@).contains(
                app.apps()[i as int].name@,
            )),
{
    let keep = |i: usize|
        !names_at(app.apps(), f.recent_rows@).contains(app.apps()[i as int].name@);
    lemma_filter(f.visible@, keep);
    let rest = remaining(app.apps(), f.visible@, f.recent_rows@);
    let order = f.display_order@;
    assert forall|i: usize|
        #[trigger] order.contains(i) <==> f.recent_rows@.contains(i) || rest.contains(i) by {
        if f.recent_rows@.contains(i) {
            let k = choose|k: int| 0 <= k < f.recent_rows@.len() && f.recent_rows@[k] == i;
            assert(order[k] == i);
        }
        if rest.contains(i) {
            let k = choose|k: int| 0 <= k < rest.len() && rest[k] == i;
            assert(order[f.recent_rows@.len() + k] == i);
        }
        if order.contains(i) {
            let k = choose|k: int| 0 <= k < order.len() && order[k] == i;
            if k < f.recent_rows@.len() {
                assert(f.recent_rows@[k] == i);
            } else {
                assert(rest[k - f.recent_rows@.len()] == i);
            }
        }
    }
}

/// The words of nothing.
proof fn lemma_no_words(s: Seq<char>)
    requires
        s.len() == 0,
    ensures
        words(s) == Seq::<Seq<char>>::empty(),
{
    assert(trimmed_start(s) == s);
}

/// An empty search finds every entry.
pub proof fn law_empty_search_finds_all(a: AppEntry, search: Seq<char>)
    requires
        search.len() == 0,
    ensures
        a.matches_needle(search),
{
    lemma_no_words(search);
    assert(all_lowercase(words(search)).len() == 0);
}

/// The recently used entries stand in the list too.
pub proof fn law_recent_rows_are_visible(app: App, f: Frame)
    requires
        app.wf(),
        app.lists(f),
    ensures
        forall|k: int|
            0 <= k < f.recent_rows.len() ==> f.visible@.contains(#[trigger] f.recent_rows@[k]),
{
    lemma_listed(app, f);
    assert forall|k: int| 0 <= k < f.recent_rows.len() implies f.visible@.contains(
        #[trigger] f.recent_rows@[k],
    ) by {
        let i = f.recent_rows@[k];
        assert(was_used(app.apps(), f.locked.deep_view(), app.recent, i as int));
        law_empty_search_finds_all(app.apps()[i as int], app.search@);
    }
}

/// The screen shows the entries of the list and nothing else: each of them
/// stands there, itself or through a recently used entry of the same name.
pub proof fn law_nothing_is_left_out(app: App, f: Frame)
    requires
        app.wf(),
        app.lists(f),
    ensures
        forall|i: usize| #[trigger] f.display_order@.contains(i) ==> f.visible@.contains(i),
        forall|i: usize| #[trigger]
            f.visible@.contains(i) ==> f.display_order@.contains(i) || names_at(
                app.apps(),
                f.recent_rows@,
            ).contains(app.apps()[i as int].name@),
{
    lemma_display_order(app, f);
    law_recent_rows_are_visible(app, f);
}

/// Until a category is unlocked, its entries are hidden: they stand neither in
/// the list, whatever is searched, nor among the recently used ones, nor
/// anywhere else on the screen, and the Enter key does not launch them.
pub proof fn law_locked_entries_are_hidden(app: App, f: Frame, i: usize)
    requires
        app.wf(),
        app.lists(f),
        i < app.apps().len(),
        is_locked(app.categories(), app.unlocked.deep_view(), app.apps()[i as int].category@),
    ensures
        !f.visible@.contains(i),
        !f.recent_rows@.contains(i),
        !f.display_order@.contains(i),
        app.entered(f) != Some(i),
{
    lemma_listed(app, f);
    law_recent_rows_are_visible(app, f);
    law_nothing_is_left_out(app, f);
    assert(f.locked.deep_view().contains(app.apps()[i as int].category@));
    if f.recent_rows@.contains(i) {
        let k = choose|k: int| 0 <= k < f.recent_rows@.len() && f.recent_rows@[k] == i;
        assert(f.visible@.contains(f.recent_rows@[k]));
    }
    if f.visible@.len() > 0 {
        assert(f.visible@.contains(f.visible@[0]));
    }
}

/// The Enter key launches only what stands in the list, and nothing at all
/// where nothing was chosen and nothing is searched.
pub proof fn law_stray_enter_is_harmless(app: App, f: Frame)
    ensures
        app.entered(f) matches Some(i) ==> f.visible@.contains(i),
        app.highlighted is None && app.search@.len() == 0 ==> app.entered(f) is None,
{
    if f.visible@.len() > 0 {
        assert(f.visible@.contains(f.visible@[0]));
    }
}

/// While a password is asked for, nothing is listed, so that the Enter key can
/// only mean the password.
pub proof fn law_prompt_stands_alone(app: App, f: Frame, k: usize)
    requires
        app.wf(),
        app.lists(f),
        app.asks_for(f, Some(k)),
    ensures
        f.visible.len() == 0,
        f.recent_rows.len() == 0,
        f.display_order.len() == 0,
        app.entered(f) is None,
{
    lemma_listed(app, f);
    law_nothing_is_left_out(app, f);
    if f.visible@.len() > 0 {
        let i = f.visible@[0];
        assert(f.visible@.contains(i));
    }
    if f.display_order@.len() > 0 {
        assert(f.display_order@.contains(f.display_order@[0]));
    }
}

/// No entry stands twice on the screen.
pub proof fn law_each_entry_once(app: App, f: Frame)
    requires
        app.wf(),
        app.lists(f),
    ensures
        f.display_order@.no_duplicates(),
{
    lemma_listed(app, f);
    let apps = app.apps();
    let names = names_at(apps, f.recent_rows@);
    let keep = |i: usize| !names.contains(apps[i as int].name@);
    lemma_filter(f.visible@, keep);
    let rest = remaining(apps, f.visible@, f.recent_rows@);
    let order = f.display_order@;
    let n = f.recent_rows@.len() as int;
    assert forall|k: int, l: int| 0 <= k < l < order.len() implies order[k] != order[l] by {
        if l < n {
            assert(order[k] == f.recent_rows@[k] && order[l] == f.recent_rows@[l]);
            assert(more_recent(
                apps,
                app.recent,
                f.recent_rows@[k] as int,
                f.recent_rows@[l] as int,
            ));
        } else if k >= n {
            assert(order[k] == rest[k - n] && order[l] == rest[l - n]);
        } else {
            assert(order[k] == f.recent_rows@[k] && order[l] == rest[l - n]);
            assert(rest.contains(rest[l - n]));
            assert(keep(order[l]));
            assert(names[k] == apps[order[k] as int].name@);
        }
    }
}

/// Below the recently used entries no entry stands under a name that one of
/// them has, and no two of them have the same name.
pub proof fn law_recent_names_once(app: App, f: Frame)
    requires
        app.wf(),
        app.lists(f),
    ensures
        names_at(app.apps(), f.recent_rows@).no_duplicates(),
        forall|i: usize| #[trigger]
            remaining(app.apps(), f.visible@, f.recent_rows@).contains(i) ==> !names_at(
                app.apps(),
                f.recent_rows@,
            ).contains(app.apps()[i as int].name@),
{
    let apps = app.apps();
    let rows = f.recent_rows@;
    let names = names_at(apps, rows);
    lemma_filter(f.visible@, |i: usize| !names.contains(apps[i as int].name@));
    assert forall|k: int, l: int| 0 <= k < l < names.len() implies names[k] != names[l] by {
        let i = rows[k] as int;
        let j = rows[l] as int;
        assert(more_recent(apps, app.recent, rows[k] as int, rows[l] as int));
        assert(was_used(apps, f.locked.deep_view(), app.recent, rows[k] as int));
        assert(was_used(apps, f.locked.deep_view(), app.recent, rows[l] as int));
        if i < j {
            assert(apps[i].name@ != apps[j].name@);
        } else {
            assert(apps[j].name@ != apps[i].name@);
        }
    }
}

/// The entries among some rows, from top to bottom.
pub open spec fn entries_of(rows: Seq<RowView>) -> Seq<int>
    decreases rows.len(),
{
    if rows.len() == 0 {
        Seq::empty()
    } else {
        match rows.last() {
            RowView::App(i) => entries_of(rows.drop_last()).push(i),
            _ => entries_of(rows.drop_last()),
        }
    }
}

/// Positions as integers.
pub open spec fn positions(list: Seq<usize>) -> Seq<int> {
    list.map_values(|i: usize| i as int)
}

/// Headings come between the entries of the list and never change which entries
/// stand there, nor their order.
pub proof fn law_layout_keeps_order(
    apps: Seq<AppEntry>,
    categories: Seq<Category>,
    grouped: bool,
    list: Seq<usize>,
)
    ensures
        entries_of(layout(apps, categories, grouped, list)) == positions(list),
    decreases list.len(),
{
    if list.len() > 0 {
        law_layout_keeps_order(apps, categories, grouped, list.drop_last());
        let before = layout(apps, categories, grouped, list.drop_last());
        let own = rows_of(
            apps,
            categories,
            grouped,
            above_last(list),
            list.last(),
        );
        let all = before + own;
        let n = own.len() as int;
        assert(own[n - 1] == RowView::App(list.last() as int));
        let one = all.drop_last();
        assert(one == before + own.drop_last());
        assert(entries_of(all) == entries_of(one).push(list.last() as int));
        assert(n <= 3);
        assert forall|j: int| 0 <= j < n - 1 implies !(own[j] is App) by {
        }
        if n == 1 {
            assert(one == before);
        } else {
            let two = one.drop_last();
            assert(one.last() == own[n - 2]);
            assert(entries_of(one) == entries_of(two));
            if n == 2 {
                assert(two == before);
            } else {
                assert(two.last() == own[0]);
                assert(two.drop_last() == before);
                assert(entries_of(two) == entries_of(before));
            }
        }
        assert(positions(list) == positions(list.drop_last()).push(list.last() as int));
    }
}

/// The arrow keys follow the screen: the order that they go through is that of
/// the recently used entries and of the rows below them.
pub proof fn law_keyboard_follows_screen(app: App, f: Frame)
    requires
        app.wf(),
        app.lists(f),
    ensures
        positions(f.display_order@) == positions(f.recent_rows@) + entries_of(
            layout(
                app.apps(),
                app.categories(),
                app.active_category is None,
                remaining(app.apps(), f.visible@, f.recent_rows@),
            ),
        ),
{
    let rest = remaining(app.apps(), f.visible@, f.recent_rows@);
    law_layout_keeps_order(app.apps(), app.categories(), app.active_category is None, rest);
    assert(positions(f.recent_rows@ + rest) == positions(f.recent_rows@) + positions(rest));
}

/// Going down and up again leads back, and so does going up and down, except at
/// the ends of the screen.
pub proof fn law_down_and_up(p: int, len: int)
    requires
        0 <= p < len,
    ensures
        p + 1 < len ==> step(step(p, len, true), len, false) == p,
        p > 0 ==> step(step(p, len, false), len, true) == p,
        0 <= step(p, len, true) < len,
        0 <= step(p, len, false) < len,
{
}

/// Rows in order are settled by which rows there are.
proof fn lemma_same_rows(apps: Seq<AppEntry>, recent: RecentFile, r: Seq<usize>, s: Seq<usize>)
    requires
        by_time(apps, recent, r),
        by_time(apps, recent, s),
        forall|i: usize|
            #![trigger r.contains(i)]
            #![trigger s.contains(i)]
            r.contains(i) <==> s.contains(i),
    ensures
        r == s,
    decreases r.len(),
{
    if r.len() == 0 {
        if s.len() > 0 {
            assert(s.contains(s[0]));
        }
    } else {
        let n = r.len() - 1;
        assert(r.contains(r[n]));
        assert(s.contains(r[n]));
        let m = s.len() - 1;
        let l = choose|l: int| 0 <= l < s.len() && s[l] == r[n];
        assert(s.contains(s[m]));
        assert(r.contains(s[m]));
        let k = choose|k: int| 0 <= k < r.len() && r[k] == s[m];
        if l < m && k < n {
            assert(more_recent(apps, recent, s[l] as int, s[m] as int));
            assert(more_recent(apps, recent, r[k] as int, r[n] as int));
        }
        assert(r[n] == s[m]);
        let r0 = r.drop_last();
        let s0 = s.drop_last();
        assert forall|a: int, b: int| 0 <= a < b < r0.len() implies more_recent(
            apps,
            recent,
            (#[trigger] r0[a]) as int,
            (#[trigger] r0[b]) as int,
        ) by {
            assert(r0[a] == r[a] && r0[b] == r[b]);
        }
        assert forall|a: int, b: int| 0 <= a < b < s0.len() implies more_recent(
            apps,
            recent,
            (#[trigger] s0[a]) as int,
            (#[trigger] s0[b]) as int,
        ) by {
            assert(s0[a] == s[a] && s0[b] == s[b]);
        }
        assert forall|i: usize|
            #![trigger r0.contains(i)]
            #![trigger s0.contains(i)]
            r0.contains(i) <==> s0.contains(i) by {
            if r0.contains(i) {
                let a = choose|a: int| 0 <= a < r0.len() && r0[a] == i;
                assert(r[a] == i);
                assert(r.contains(i));
                assert(s.contains(i));
                let b = choose|b: int| 0 <= b < s.len() && s[b] == i;
                assert(more_recent(apps, recent, r[a] as int, r[n] as int));
                assert(b != m);
                assert(s0[b] == i);
            }
            if s0.contains(i) {
                let b = choose|b: int| 0 <= b < s0.len() && s0[b] == i;
                assert(s[b] == i);
                assert(s.contains(i));
                assert(r.contains(i));
                let a = choose|a: int| 0 <= a < r.len() && r[a] == i;
                assert(more_recent(apps, recent, s[b] as int, s[m] as int));
                assert(a != n);
                assert(r0[a] == i);
            }
        }
        lemma_same_rows(apps, recent, r0, s0);
        assert(r == r0.push(r[n]));
        assert(s == s0.push(s[m]));
    }
}

proof fn lemma_recent_rows_subset(
    apps: Seq<AppEntry>,
    locked: Seq<Seq<char>>,
    recent: RecentFile,
    r: Seq<usize>,
    s: Seq<usize>,
    i: usize,
)
    requires
        are_recent_rows(apps, locked, recent, r),
        are_recent_rows(apps, locked, recent, s),
        r.contains(i),
    ensures
        s.contains(i),
{
    let k = choose|k: int| 0 <= k < r.len() && r[k] == i;
    assert(was_used(apps, locked, recent, r[k] as int));
    if !s.contains(i) {
        let t = s.push(i);
        assert forall|x: usize| #[trigger] t.to_set().contains(x) implies r.to_set().contains(
            x,
        ) by {
            assert(t.contains(x));
            let a = choose|a: int| 0 <= a < t.len() && t[a] == x;
            if a < s.len() {
                assert(s[a] == x);
                assert(was_used(apps, locked, recent, s[a] as int));
                assert(more_recent(apps, recent, s[a] as int, i as int));
                if !r.contains(x) {
                    assert(more_recent(apps, recent, r[k] as int, x as int));
                }
            }
            assert(r.contains(x));
        }
        assert(t.no_duplicates()) by {
            assert forall|a: int, b: int| 0 <= a < b < t.len() implies t[a] != t[b] by {
                if b < s.len() {
                    assert(t[a] == s[a] && t[b] == s[b]);
                    assert(more_recent(apps, recent, s[a] as int, s[b] as int));
                } else {
                    assert(s.contains(s[a]));
                }
            }
        }
        t.unique_seq_to_set();
        r.lemma_cardinality_of_set();
        vstd::set_lib::lemma_len_subset(t.to_set(), r.to_set());
    }
}

/// The history and the entries settle which recently used entries are shown,
/// and in which order.
pub proof fn law_recent_rows_are_settled(
    apps: Seq<AppEntry>,
    locked: Seq<Seq<char>>,
    recent: RecentFile,
    r: Seq<usize>,
    s: Seq<usize>,
)
    requires
        are_recent_rows(apps, locked, recent, r),
        are_recent_rows(apps, locked, recent, s),
    ensures
        r == s,
{
    assert forall|i: usize|
        #![trigger r.contains(i)]
        #![trigger s.contains(i)]
        r.contains(i) <==> s.contains(i) by {
        if r.contains(i) {
            lemma_recent_rows_subset(apps, locked, recent, r, s, i);
        }
        if s.contains(i) {
            lemma_recent_rows_subset(apps, locked, recent, s, r, i);
        }
    }
    lemma_same_rows(apps, recent, r, s);
}

/// An entry that is launched after all the others becomes the first of the
/// recently used ones.
pub proof fn law_last_launch_comes_first(
    apps: Seq<AppEntry>,
    locked: Seq<Seq<char>>,
    before: RecentFile,
    after: RecentFile,
    entry: RecentEntry,
    rows: Seq<usize>,
    i: usize,
)
    requires
        first_of_name(apps, locked, i as int),
        after@ == before@.insert(apps[i as int].name@, entry),
        forall|name: Seq<char>| #[trigger]
            before@.contains_key(name) && name != apps[i as int].name@ ==> before@[name].last_epoch
                < entry.last_epoch,
        are_recent_rows(apps, locked, after, rows),
    ensures
        rows.len() > 0,
        rows[0] == i,
{
    assert(was_used(apps, locked, after, i as int));
    let name = apps[i as int].name@;
    assert forall|j: usize|
        #[trigger] was_used(apps, locked, after, j as int) && j
            != i implies !more_recent(apps, after, j as int, i as int) by {
        let other = apps[j as int].name@;
        if other == name {
            if j < i {
                assert(apps[j as int].name@ != apps[i as int].name@);
            } else {
                assert(apps[i as int].name@ != apps[j as int].name@);
            }
        }
        assert(before@.contains_key(other));
    }
    if !rows.contains(i) {
        assert(rows.len() == RECENT_SHOWN);
        assert(was_used(apps, locked, after, rows[0] as int));
        assert(more_recent(apps, after, rows[0] as int, i as int));
        assert(rows.contains(rows[0]));
    } else {
        let k = choose|k: int| 0 <= k < rows.len() && rows[k] == i;
        if k > 0 {
            assert(was_used(apps, locked, after, rows[0] as int));
            assert(more_recent(apps, after, rows[0] as int, rows[k] as int));
        }
    }
}

proof fn lemma_same_indices(n: nat, p: spec_fn(int) -> bool, q: spec_fn(int) -> bool)
    requires
        forall|i: int| 0 <= i < n ==> (#[trigger] p(i) <==> q(i)),
    ensures
        indices_where(n, p) == indices_where(n, q),
    decreases n,
{
    if n > 0 {
        lemma_same_indices((n - 1) as nat, p, q);
        assert(p(n - 1) <==> q(n - 1));
    }
}

proof fn lemma_listed_where(
    apps: Seq<AppEntry>,
    locked: Seq<Seq<char>>,
    active: Option<Seq<char>>,
    search: Seq<char>,
    p: spec_fn(int) -> bool,
)
    requires
        forall|i: int|
            0 <= i < apps.len() ==> (#[trigger] p(i) <==> is_listed(
                apps[i],
                locked,
                active,
                search,
            )),
    ensures
        listed(apps, locked, active, search) == indices_where(apps.len(), p),
{
    lemma_same_indices(apps.len(), p, |i: int| is_listed(apps[i], locked, active, search));
}

/// The numbers in the sidebar are the lengths of the lists that a click there
/// shows while nothing is searched.
pub proof fn law_sidebar_counts_are_lengths(
    apps: Seq<AppEntry>,
    locked: Seq<Seq<char>>,
    id: Seq<char>,
    search: Seq<char>,
)
    requires
        search.len() == 0,
    ensures
        unhidden_count(apps, locked) == listed(apps, locked, None, search).len(),
        !locked.contains(id) ==> category_count(apps, id) == listed(
            apps,
            locked,
            Some(id),
            search,
        ).len(),
{
    assert forall|i: int| 0 <= i < apps.len() implies #[trigger] apps[i].matches_needle(search) by {
        law_empty_search_finds_all(apps[i], search);
    }
    let unhidden = |i: int| !locked.contains(apps[i].category@);
    lemma_listed_where(apps, locked, None, search, unhidden);
    if !locked.contains(id) {
        let of_category = |i: int| belongs_to(apps[i], id);
        lemma_listed_where(apps, locked, Some(id), search, of_category);
    }
}

/// A category that was unlocked is open; whether any other is locked does not
/// change, and those that were unlocked before stay so.
pub proof fn law_unlocking_opens_one(
    categories: Seq<Category>,
    unlocked: Seq<Seq<char>>,
    id: Seq<char>,
    other: Seq<char>,
)
    ensures
        !is_locked(categories, with_id(unlocked, id), id),
        other != id ==> (is_locked(categories, with_id(unlocked, id), other) <==> is_locked(
            categories,
            unlocked,
            other,
        )),
        unlocked.contains(other) ==> with_id(unlocked, id).contains(other),
{
    let after = with_id(unlocked, id);
    assert(after.contains(id)) by {
        if !unlocked.contains(id) {
            assert(after[unlocked.len() as int] == id);
        }
    }
    assert forall|x: Seq<char>|
        x != id implies (#[trigger] after.contains(x) <==> unlocked.contains(x)) by {
        if unlocked.contains(x) {
            let k = choose|k: int| 0 <= k < unlocked.len() && unlocked[k] == x;
            assert(after[k] == x);
        }
        if after.contains(x) {
            let k = choose|k: int| 0 <= k < after.len() && after[k] == x;
            assert(unlocked[k] == x);
        }
    }
    if other != id {
        if is_locked(categories, unlocked, other) {
            let k = choose|k: int|
                0 <= k < categories.len() && (#[trigger] categories[k]).id@ == other && locks(
                    categories[k],
                    unlocked,
                );
            assert(locks(categories[k], after));
        }
        if is_locked(categories, after, other) {
            let k = choose|k: int|
                0 <= k < categories.len() && (#[trigger] categories[k]).id@ == other && locks(
                    categories[k],
                    after,
                );
            assert(locks(categories[k], unlocked));
        }
    }
}

/// A password of ASCII characters opens the category in capitals or not, and
/// with white space around it, whatever the other passwords hold.
pub proof fn law_password_case_is_ignored(
    passwords: Seq<Seq<char>>,
    i: int,
    before: Seq<char>,
    typed: Seq<char>,
    after: Seq<char>,
)
    requires
        0 <= i < passwords.len(),
        is_ascii_chars(passwords[i]),
        ascii_lowered(typed) == ascii_lowered(passwords[i]),
        typed.len() > 0,
        !white_space(typed[0]),
        !white_space(typed.last()),
        all_white(before),
        all_white(after),
    ensures
        ascii_unlocks(passwords, before + typed + after),
        lowered_by_rule(passwords[i]) && lowered_by_rule(typed) ==> unlocks(
            passwords,
            before + typed + after,
        ),
{
    lemma_trimmed_framed(before, typed, after);
    lemma_lowered_ascii(passwords[i], typed);
    if lowered_by_rule(passwords[i]) && lowered_by_rule(typed) {
        lemma_ascii_unlocks(passwords, before + typed + after, i);
    }
}

/// A text that differs from an ASCII text in case alone is one too.
proof fn lemma_lowered_ascii(a: Seq<char>, b: Seq<char>)
    requires
        is_ascii_chars(a),
        ascii_lowered(a) == ascii_lowered(b),
    ensures
        is_ascii_chars(b),
{
    assert(ascii_lowered(a).len() == a.len() && ascii_lowered(b).len() == b.len());
    assert forall|k: int| 0 <= k < b.len() implies '\0' <= #[trigger] b[k] <= '\u{7f}' by {
        assert(ascii_lowered(a)[k] == ascii_lower(a[k]));
        assert(ascii_lowered(b)[k] == ascii_lower(b[k]));
    }
}

/// An application that was launched cannot be launched again before the
/// cooldown is over, from whichever of its entries, and can be then as far as
/// the cooldown goes. No other application is affected.
pub proof fn law_cooldown(before: App, after: App, idx: usize, now: u64, other: usize, later: u64)
    requires
        after.noted(before, idx, now),
        idx < before.apps().len(),
        other < before.apps().len(),
    ensures
        ({
            let same = before.apps()[other as int].name@ == before.apps()[idx as int].name@;
            &&& same && later - now < LAUNCH_COOLDOWN ==> !after.launchable(other, later)
            &&& same && later - now >= LAUNCH_COOLDOWN ==> !after.cools(other, later)
            &&& !same ==> after.cools(other, later) == before.cools(other, later)
            &&& !same ==> after.launchable(other, later) == before.launchable(other, later)
        }),
{
    assert(after.apps() == before.apps());
}

/// The cooldown stays with the application: loading a configuration, or
/// failing to, changes nothing about it, wherever the application stands
/// afterwards.
pub proof fn law_cooldown_follows_the_application(
    before: App,
    after: App,
    loaded: Result<Config, String>,
    present: Seq<bool>,
    i: usize,
    j: usize,
    name: Seq<char>,
    later: u64,
)
    requires
        after.reloaded(before, loaded, present),
    ensures
        after.name_cools(name, later) == before.name_cools(name, later),
        before.name_at(Some(i)) is Some && after.name_at(Some(j)) == before.name_at(Some(i))
            ==> after.cools(j, later) == before.cools(i, later),
{
}

/// An entry with this name and these numbers stands in the list.
pub open spec fn lists_entry(
    entries: Seq<(String, RecentEntry)>,
    name: Seq<char>,
    e: RecentEntry,
) -> bool {
    exists|k: int|
        0 <= k < entries.len() && (#[trigger] entries[k]).0@ == name && entries[k].1 == e
}

/// A history whose entries come back, each name once and in whatever order, is
/// the same history: the one that is loaded from them.
pub proof fn law_history_order_is_ignored(recent: RecentFile, back: Seq<(String, RecentEntry)>)
    requires
        recent.wf(),
        distinct_names(back),
        forall|name: Seq<char>, e: RecentEntry|
            #![trigger lists_entry(back, name, e)]
            #![trigger lists_entry(recent.entries@, name, e)]
            lists_entry(back, name, e) <==> lists_entry(recent.entries@, name, e),
    ensures
        history(back) == recent@,
{
    let kept = recent.entries@;
    assert forall|name: Seq<char>| history(back).contains_key(name) <==> history(
        kept,
    ).contains_key(name) by {
        lemma_history_names(back, name);
        lemma_history_names(kept, name);
        lemma_same_entry(back, kept, name);
        lemma_same_entry(kept, back, name);
    }
    assert forall|name: Seq<char>| history(back).contains_key(name) implies history(back)[name]
        == history(kept)[name] by {
        lemma_history_names(back, name);
        lemma_same_entry(back, kept, name);
    }
    assert(history(back) =~= history(kept));
}

proof fn lemma_same_entry(
    a: Seq<(String, RecentEntry)>,
    b: Seq<(String, RecentEntry)>,
    name: Seq<char>,
)
    requires
        distinct_names(a),
        distinct_names(b),
        forall|n: Seq<char>, e: RecentEntry|
            #![trigger lists_entry(a, n, e)]
            lists_entry(a, n, e) ==> lists_entry(b, n, e),
    ensures
        history(a).contains_key(name) ==> history(b).contains_key(name) && history(a)[name]
            == history(b)[name],
{
    lemma_history_names(a, name);
    if history(a).contains_key(name) {
        let i = choose|i: int| 0 <= i < a.len() && (#[trigger] a[i]).0@ == name;
        lemma_history_entry(a, i);
        assert(lists_entry(a, name, a[i].1));
        let k = choose|k: int|
            0 <= k < b.len() && (#[trigger] b[k]).0@ == name && b[k].1 == a[i].1;
        lemma_history_entry(b, k);
    }
}

/// A web page is always available.
pub proof fn law_pages_are_available(a: AppEntry, present: bool)
    requires
        a.url is Some,
    ensures
        a.is_available(present),
{
}

/// The flag of the configuration settles whether an entry needs a browser.
pub proof fn law_browser_flag_decides(a: AppEntry, required: bool)
    requires
        a.requires_browser == Some(required),
    ensures
        a.needs_browser() == required,
{
}

/// The name of a launch log is one component of a path: no separator stands in
/// it, and it is neither `.` nor `..`.
pub proof fn law_log_name_is_one_component(name: Seq<char>)
    ensures
        ({
            let file = safe_name(name) + ".log"@;
            &&& forall|i: int| 0 <= i < file.len() ==> file[i] != '/'
            &&& file.len() >= 4
        }),
{
    reveal_strlit(".log");
    assert forall|i: int| 0 <= i < name.len() implies safe_name(name)[i] != '/' by {
        assert(!alphanumeric('/'));
    }
}

/// After a configuration is loaded, the preview and the keyboard choice are
/// where they were as far as names go, and nowhere if the name is gone.
pub proof fn law_reload_follows_names(
    before: App,
    after: App,
    cfg: Config,
    present: Seq<bool>,
    i: int,
)
    requires
        after.reloaded(before, Ok(cfg), present),
        0 <= i < cfg.apps.len(),
    ensures
        before.name_at(before.selected) == Some(cfg.apps@[i].name@) ==> after.name_at(
            after.selected,
        ) == before.name_at(before.selected),
        before.name_at(before.highlighted) == Some(cfg.apps@[i].name@) ==> after.name_at(
            after.highlighted,
        ) == before.name_at(before.highlighted),
        after.selected is Some ==> after.name_at(after.selected) == before.name_at(before.selected),
        after.highlighted is Some ==> after.name_at(after.highlighted) == before.name_at(
            before.highlighted,
        ),
{
    assert(after.apps() == cfg.apps@);
}

/// There are no warnings just where every entry's category is defined.
pub proof fn law_no_warnings(cfg: Config)
    ensures
        config_warnings(cfg).len() == 0 <==> forall|i: int|
            0 <= i < cfg.apps.len() ==> cfg.category_ids().contains(
                (#[trigger] cfg.apps@[i]).category@,
            ),
{
    let unknown = |a: AppEntry| !cfg.category_ids().contains(a.category@);
    lemma_filter(cfg.apps@, unknown);
    let bad = cfg.apps@.filter(unknown);
    if bad.len() > 0 {
        assert(bad.contains(bad[0]));
        let i = choose|i: int| 0 <= i < cfg.apps@.len() && cfg.apps@[i] == bad[0];
        assert(!cfg.category_ids().contains(cfg.apps@[i].category@));
    } else {
        assert forall|i: int| 0 <= i < cfg.apps.len() implies cfg.category_ids().contains(
            (#[trigger] cfg.apps@[i]).category@,
        ) by {
            assert(cfg.apps@.contains(cfg.apps@[i]));
            assert(!bad.contains(cfg.apps@[i]));
        }
    }
}

proof fn lemma_leading_white_joined(a: Seq<char>, b: Seq<char>)
    ensures
        leading_white(a) < a.len() ==> leading_white(a + b) == leading_white(a),
        leading_white(a) == a.len() ==> leading_white(a + b) == a.len() + leading_white(b),
    decreases a.len(),
{
    lemma_leading_bounds(a);
    if a.len() == 0 {
        assert(a + b == b);
    } else if white_space(a[0]) {
        lemma_leading_white_joined(a.skip(1), b);
        lemma_leading_bounds(a.skip(1));
        assert((a + b).skip(1) == a.skip(1) + b);
    }
}

proof fn lemma_leading_word_joined(a: Seq<char>, b: Seq<char>)
    requires
        b.len() > 0,
        white_space(b[0]),
    ensures
        leading_word(a + b) == leading_word(a),
    decreases a.len(),
{
    if a.len() == 0 {
        assert(a + b == b);
    } else if !white_space(a[0]) {
        lemma_leading_word_joined(a.skip(1), b);
        assert((a + b).skip(1) == a.skip(1) + b);
    }
}

proof fn lemma_same_words(a: Seq<char>, b: Seq<char>)
    requires
        trimmed_start(a) == trimmed_start(b),
    ensures
        words(a) == words(b),
{
}

pub proof fn lemma_words_joined(a: Seq<char>, w: char, b: Seq<char>)
    requires
        white_space(w),
    ensures
        words(a + seq![w] + b) == words(a) + words(b),
    decreases a.len(),
{
    let tail = seq![w] + b;
    let all = a + seq![w] + b;
    assert(all == a + tail);
    let t = trimmed_start(a);
    let n = leading_word(t) as int;
    lemma_leading_bounds(a);
    lemma_leading_bounds(t);
    lemma_leading_white_joined(a, tail);
    if n == 0 {
        assert(t.len() == 0) by {
            if t.len() > 0 {
                lemma_first_after_white(a);
            }
        }
        assert(leading_white(a) == a.len());
        assert(tail.skip(1) == b);
        assert(leading_white(tail) == 1 + leading_white(b));
        lemma_leading_bounds(b);
        assert(trimmed_start(all) == trimmed_start(b));
        lemma_same_words(all, b);
        assert(words(a) + words(b) == words(b));
    } else {
        assert(trimmed_start(all) == t + tail);
        lemma_leading_word_joined(t, tail);
        assert((t + tail).take(n) == t.take(n));
        assert((t + tail).skip(n) == t.skip(n) + seq![w] + b);
        lemma_words_joined(t.skip(n), w, b);
        assert(words(all) == seq![t.take(n)] + words(t.skip(n) + seq![w] + b));
        assert(words(a) + words(b) == seq![t.take(n)] + (words(t.skip(n)) + words(b)));
    }
}

proof fn lemma_first_after_white(s: Seq<char>)
    ensures
        trimmed_start(s).len() > 0 ==> !white_space(trimmed_start(s)[0]),
    decreases s.len(),
{
    lemma_leading_bounds(s);
    if s.len() > 0 && white_space(s[0]) {
        lemma_first_after_white(s.skip(1));
        lemma_leading_bounds(s.skip(1));
        assert(trimmed_start(s) == trimmed_start(s.skip(1)));
    }
}

/// A search for several words finds what the searches for each of them find,
/// in whichever order they are typed and however they are split across the
/// texts of an entry.
pub proof fn law_words_are_searched_alone(e: AppEntry, a: Seq<char>, w: char, b: Seq<char>)
    requires
        white_space(w),
    ensures
        e.matches_needle(a + seq![w] + b) <==> e.matches_needle(a) && e.matches_needle(b),
        e.matches_needle(a + seq![w] + b) <==> e.matches_needle(b + seq![w] + a),
{
    lemma_words_joined(a, w, b);
    lemma_words_joined(b, w, a);
    let fields = all_lowercase(e.search_texts());
    let first = all_lowercase(words(a));
    let second = all_lowercase(words(b));
    assert(all_lowercase(words(a) + words(b)) == first + second);
    assert(all_lowercase(words(b) + words(a)) == second + first);
    lemma_all_found_joined(fields, first, second);
    lemma_all_found_joined(fields, second, first);
}

proof fn lemma_all_found_joined(
    fields: Seq<Seq<char>>,
    first: Seq<Seq<char>>,
    second: Seq<Seq<char>>,
)
    ensures
        all_found_in(fields, first + second) <==> all_found_in(fields, first) && all_found_in(
            fields,
            second,
        ),
{
    let both = first + second;
    if all_found_in(fields, both) {
        assert forall|k: int| 0 <= k < first.len() implies found_in(fields, #[trigger] first[k]) by {
            assert(both[k] == first[k]);
        }
        assert forall|k: int| 0 <= k < second.len() implies found_in(
            fields,
            #[trigger] second[k],
        ) by {
            assert(both[first.len() + k] == second[k]);
        }
    }
    if all_found_in(fields, first) && all_found_in(fields, second) {
        assert forall|k: int| 0 <= k < both.len() implies found_in(fields, #[trigger] both[k]) by {
            if k < first.len() {
                assert(both[k] == first[k]);
            } else {
                assert(both[k] == second[k - first.len()]);
            }
        }
    }
}

proof fn lemma_lowered_part(s: Seq<char>)
    ensures
        leading_white(ascii_lowered(s)) == leading_white(s),
        leading_word(ascii_lowered(s)) == leading_word(s),
    decreases s.len(),
{
    let l = ascii_lowered(s);
    if s.len() > 0 {
        lemma_lowered_part(s.skip(1));
        assert(l.skip(1) == ascii_lowered(s.skip(1)));
        assert(white_space(l[0]) == white_space(s[0]));
    }
}

proof fn lemma_lowered_words(s: Seq<char>)
    ensures
        all_ascii_lowered(words(s)) == words(ascii_lowered(s)),
    decreases s.len(),
{
    let l = ascii_lowered(s);
    let t = trimmed_start(s);
    let n = leading_word(t) as int;
    lemma_lowered_part(s);
    lemma_leading_bounds(s);
    assert(trimmed_start(l) == ascii_lowered(t));
    lemma_lowered_part(t);
    lemma_leading_bounds(t);
    if n > 0 {
        lemma_lowered_words(t.skip(n));
        assert(ascii_lowered(t).take(n) == ascii_lowered(t.take(n)));
        assert(ascii_lowered(t).skip(n) == ascii_lowered(t.skip(n)));
        assert(all_ascii_lowered(words(s)) == seq![ascii_lowered(t.take(n))] + all_ascii_lowered(
            words(t.skip(n)),
        ));
    } else {
        assert(all_ascii_lowered(words(s)) == Seq::<Seq<char>>::empty());
    }
}

/// Two searches of ASCII characters that differ in the case of letters alone
/// find the same, whatever the texts of the entry hold.
pub proof fn law_search_case_is_ignored(e: AppEntry, a: Seq<char>, b: Seq<char>)
    requires
        is_ascii_chars(a),
        ascii_lowered(a) == ascii_lowered(b),
    ensures
        all_found_in(all_lowercase(e.search_texts()), all_ascii_lowered(words(a)))
            <==> all_found_in(
            all_lowercase(e.search_texts()),
            all_ascii_lowered(words(b)),
        ),
        all_lowered_by_rule(words(a)) && all_lowered_by_rule(words(b)) ==> (e.matches_needle(a)
            <==> e.matches_needle(b)),
{
    lemma_lowered_words(a);
    lemma_lowered_words(b);
    lemma_lowered_ascii(a, b);
    lemma_words_ascii(a);
    lemma_words_ascii(b);
    if all_lowered_by_rule(words(a)) && all_lowered_by_rule(words(b)) {
        assert(all_lowercase(words(a)) == all_ascii_lowered(words(a)));
        assert(all_lowercase(words(b)) == all_ascii_lowered(words(b)));
    }
}

/// `p` is one of the processes, and it runs.
pub open spec fn runs(
    pending: Seq<PendingLaunch>,
    polls: Seq<ChildPoll>,
    p: PendingLaunch,
) -> bool {
    exists|i: int| 0 <= i < pending.len() && polls[i] is Running && #[trigger] pending[i] == p
}

/// Just the processes that run are watched on.
pub proof fn law_running_processes_stay(pending: Seq<PendingLaunch>, polls: Seq<ChildPoll>)
    ensures
        forall|i: int|
            0 <= i < pending.len() && polls[i] is Running ==> still_running(
                pending,
                polls,
            ).contains(#[trigger] pending[i]),
        forall|k: int|
            0 <= k < still_running(pending, polls).len() ==> runs(
                pending,
                polls,
                #[trigger] still_running(pending, polls)[k],
            ),
    decreases pending.len(),
{
    if pending.len() > 0 {
        let shorter = pending.drop_last();
        law_running_processes_stay(shorter, polls);
        let before = still_running(shorter, polls);
        let all = still_running(pending, polls);
        let n = pending.len() - 1;
        assert forall|i: int| 0 <= i < pending.len() && polls[i] is Running implies all.contains(
            #[trigger] pending[i],
        ) by {
            if i < n {
                assert(shorter[i] == pending[i]);
                assert(before.contains(pending[i]));
                let k = choose|k: int| 0 <= k < before.len() && before[k] == pending[i];
                assert(all[k] == pending[i]);
            } else {
                assert(all[before.len() as int] == pending[i]);
            }
        }
        assert forall|k: int| 0 <= k < all.len() implies runs(
            pending,
            polls,
            #[trigger] all[k],
        ) by {
            if k < before.len() {
                assert(all[k] == before[k]);
                assert(runs(shorter, polls, before[k]));
                let i = choose|i: int|
                    0 <= i < shorter.len() && polls[i] is Running && #[trigger] shorter[i]
                        == before[k];
                assert(pending[i] == all[k]);
            } else {
                assert(pending[n] == all[k]);
            }
        }
    }
}

} // verus!
