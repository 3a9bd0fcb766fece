//! What the application knows: the entries of the last 30 days (newest first), the
//! quick-restart list derived from them, the projects, and the editor's state; and how
//! each reply of the API changes it.
use vstd::prelude::*;
use crate::api::{desc_spec, elapsed_in_range, elapsed_spec, Project, TimeEntry};
use crate::i18n::Strings;
use crate::ui::{project_view_of, rgb_of_hex, Page, ProjectView, Rgb};
use crate::util::{fmt_hms, fmt_hms_spec, truncate, truncate_spec};
use crate::text::push_str;
use crate::text::{trim, trim_spec};
use crate::util::{parse_rfc3339, parse_rfc3339_spec};

verus! {

// ---------------------------------------------------------------- newest first

/// The time an entry is ordered by: its start, or 0 when that does not parse.
#[verifier::opaque]
pub open spec fn entry_key(e: TimeEntry) -> int {
    match parse_rfc3339_spec(e.start@) {
        Some(v) => v,
        None => 0,
    }
}

/// The entries of `s` whose key is `k`, in their order in `s`.
pub open spec fn with_key(s: Seq<TimeEntry>, k: int) -> Seq<TimeEntry> {
    s.filter(|e: TimeEntry| entry_key(e) == k)
}

pub open spec fn newest_first(s: Seq<TimeEntry>) -> bool {
    forall|i: int, j: int| 0 <= i < j < s.len() ==> entry_key(s[i]) >= entry_key(s[j])
}

/// `r` is `s` sorted newest first by a stable sort: entries with the same key keep
/// their order (and so `r` is a permutation of `s`).
pub open spec fn stable_newest_first(s: Seq<TimeEntry>, r: Seq<TimeEntry>) -> bool {
    &&& newest_first(r)
    &&& forall|k: int| #[trigger] with_key(r, k) == with_key(s, k)
}

fn key_of(e: &TimeEntry) -> (k: i64)
    ensures
        k == entry_key(*e),
{
    reveal(entry_key);
    match parse_rfc3339(e.start.as_str()) {
        Some(v) => v,
        None => 0,
    }
}

proof fn lemma_with_key_push(s: Seq<TimeEntry>, e: TimeEntry, k: int)
    ensures
        with_key(s.push(e), k) == (if entry_key(e) == k {
            with_key(s, k).push(e)
        } else {
            with_key(s, k)
        }),
{
    reveal(Seq::filter);
    assert(s.push(e).drop_last() =~= s);
}

proof fn lemma_with_key_none(s: Seq<TimeEntry>, k: int)
    requires
        forall|j: int| 0 <= j < s.len() ==> entry_key(#[trigger] s[j]) != k,
    ensures
        with_key(s, k) == Seq::<TimeEntry>::empty(),
    decreases s.len(),
{
    reveal(Seq::filter);
    if s.len() > 0 {
        lemma_with_key_none(s.drop_last(), k);
        assert(entry_key(s[s.len() - 1]) != k);
    }
    assert(with_key(s, k) =~= Seq::<TimeEntry>::empty());
}

proof fn lemma_with_key_insert(s: Seq<TimeEntry>, p: int, e: TimeEntry, k: int)
    requires
        0 <= p <= s.len(),
        forall|j: int| p <= j < s.len() ==> entry_key(#[trigger] s[j]) < entry_key(e),
    ensures
        with_key(s.insert(p, e), k) == (if entry_key(e) == k {
            with_key(s, k).push(e)
        } else {
            with_key(s, k)
        }),
{
    let pred = |x: TimeEntry| entry_key(x) == k;
    let a = s.take(p);
    let b = s.skip(p);
    assert(s =~= a + b);
    assert(s.insert(p, e) =~= a.push(e) + b);
    Seq::filter_distributes_over_add(a, b, pred);
    Seq::filter_distributes_over_add(a.push(e), b, pred);
    lemma_with_key_push(a, e, k);
    if entry_key(e) == k {
        assert forall|j: int| 0 <= j < b.len() implies entry_key(#[trigger] b[j]) != k by {
            assert(b[j] == s[j + p]);
        }
        lemma_with_key_none(b, k);
        assert(with_key(a, k) + with_key(b, k) =~= with_key(a, k));
        assert(with_key(a, k).push(e) + with_key(b, k) =~= with_key(a, k).push(e));
    }
}

proof fn lemma_insert_point(s: Seq<TimeEntry>, keys: Seq<i64>, p: int, e: TimeEntry)
    requires
        0 <= p <= s.len(),
        keys.len() == s.len(),
        forall|j: int| 0 <= j < s.len() ==> keys[j] == entry_key(#[trigger] s[j]),
        newest_first(s),
        p == s.len() || keys[p] < entry_key(e),
    ensures
        forall|j: int| p <= j < s.len() ==> entry_key(#[trigger] s[j]) < entry_key(e),
{
    assert forall|j: int| p <= j < s.len() implies entry_key(#[trigger] s[j]) < entry_key(e) by {
        assert(keys[p] == entry_key(s[p]));
        if j > p {
            assert(entry_key(s[p]) >= entry_key(s[j]));
        }
    }
}

proof fn lemma_insert_sorted(s: Seq<TimeEntry>, keys: Seq<i64>, p: int, e: TimeEntry, ke: i64)
    requires
        0 <= p <= s.len(),
        keys.len() == s.len(),
        forall|j: int| 0 <= j < s.len() ==> keys[j] == entry_key(#[trigger] s[j]),
        newest_first(s),
        ke == entry_key(e),
        forall|j: int| 0 <= j < p ==> entry_key(#[trigger] s[j]) >= ke,
        forall|j: int| p <= j < s.len() ==> entry_key(#[trigger] s[j]) < ke,
    ensures
        newest_first(s.insert(p, e)),
        forall|j: int|
            0 <= j < s.len() + 1 ==> keys.insert(p, ke)[j] == entry_key(
                #[trigger] s.insert(p, e)[j],
            ),
{
    let t = s.insert(p, e);
    assert forall|a: int, b: int| 0 <= a < b < t.len() implies entry_key(t[a]) >= entry_key(t[b]) by {
        if a < p && b < p {
            assert(t[a] == s[a] && t[b] == s[b]);
        } else if a < p && b == p {
            assert(t[a] == s[a]);
        } else if a < p {
            assert(t[a] == s[a] && t[b] == s[b - 1]);
        } else if a == p {
            assert(t[b] == s[b - 1]);
        } else {
            assert(t[a] == s[a - 1] && t[b] == s[b - 1]);
        }
    }
    assert forall|j: int| 0 <= j < s.len() + 1 implies keys.insert(p, ke)[j] == entry_key(
        #[trigger] t[j],
    ) by {
        if j < p {
            assert(t[j] == s[j]);
        } else if j > p {
            assert(t[j] == s[j - 1]);
        }
    }
}

/// The entries sorted newest first by start (a stable sort; unparsable starts count as 0).
pub fn sort_newest_first(entries: &Vec<TimeEntry>) -> (r: Vec<TimeEntry>)
    ensures
        stable_newest_first(entries@, r@),
{
    let mut out: Vec<TimeEntry> = Vec::new();
    let mut keys: Vec<i64> = Vec::new();
    let mut i: usize = 0;
    while i < entries.len()
        invariant
            i <= entries@.len(),
            keys@.len() == out@.len(),
            forall|j: int| 0 <= j < out@.len() ==> keys@[j] == entry_key(#[trigger] out@[j]),
            newest_first(out@),
            forall|k: int| #[trigger] with_key(out@, k) == with_key(entries@.take(i as int), k),
        decreases entries@.len() - i,
    {
        let e = entries[i].duplicate();
        let ke = key_of(&e);
        let mut p: usize = 0;
        while p < out.len() && keys[p] >= ke
            invariant
                p <= out@.len(),
                keys@.len() == out@.len(),
                forall|j: int| 0 <= j < out@.len() ==> keys@[j] == entry_key(#[trigger] out@[j]),
                forall|j: int| 0 <= j < p ==> entry_key(#[trigger] out@[j]) >= ke,
            decreases out@.len() - p,
        {
            p = p + 1;
        }
        let ghost before = out@;
        let ghost before_keys = keys@;
        proof {
            lemma_insert_point(before, before_keys, p as int, e);
            assert forall|k: int| #[trigger] with_key(before.insert(p as int, e), k) == with_key(
                entries@.take(i + 1),
                k,
            ) by {
                lemma_with_key_insert(before, p as int, e, k);
                assert(entries@.take(i + 1) =~= entries@.take(i as int).push(e));
                lemma_with_key_push(entries@.take(i as int), e, k);
            }
        }
        out.insert(p, e);
        keys.insert(p, ke);
        proof {
            lemma_insert_sorted(before, before_keys, p as int, e, ke);
        }
        i = i + 1;
    }
    proof {
        assert(entries@.take(entries@.len() as int) =~= entries@);
    }
    out
}

// ---------------------------------------------------------------- quick restart

/// A description and project to restart with one click.
#[derive(Clone, Debug)]
pub struct RecentItem {
    pub description: String,
    pub project_id: Option<i64>,
}

pub open spec fn item_view(r: RecentItem) -> (Seq<char>, Option<i64>) {
    (r.description@, r.project_id)
}

/// The restart item an entry offers: its trimmed description and its project.
pub open spec fn recent_item_of(e: TimeEntry) -> (Seq<char>, Option<i64>) {
    (trim_spec(desc_spec(e)), e.project_id)
}

/// How many items the quick-restart list holds at most.
pub const RECENT_MAX: usize = 30;

/// The quick-restart list of entries given newest first: each distinct (description,
/// project) pair once, in order of first appearance, skipping entries with neither, up
/// to `RECENT_MAX` items.
pub open spec fn recent_spec(s: Seq<TimeEntry>) -> Seq<(Seq<char>, Option<i64>)>
    decreases s.len(),
{
    if s.len() == 0 {
        Seq::empty()
    } else {
        let prev = recent_spec(s.drop_last());
        let it = recent_item_of(s.last());
        if prev.len() >= RECENT_MAX || (it.0.len() == 0 && it.1 is None) || prev.contains(it) {
            prev
        } else {
            prev.push(it)
        }
    }
}

/// The quick-restart list holds at most `RECENT_MAX` items, none twice and none blank
/// (no description and no project), each offered by one of the entries.
pub proof fn lemma_recent_list(s: Seq<TimeEntry>)
    ensures
        recent_spec(s).len() <= RECENT_MAX,
        forall|i: int, j: int|
            0 <= i < j < recent_spec(s).len() ==> recent_spec(s)[i] != recent_spec(s)[j],
        forall|i: int|
            0 <= i < recent_spec(s).len() ==> !(#[trigger] recent_spec(s)[i].0.len() == 0
                && recent_spec(s)[i].1 is None),
        forall|i: int|
            #![trigger recent_spec(s)[i]]
            0 <= i < recent_spec(s).len() ==> exists|j: int|
                0 <= j < s.len() && recent_item_of(#[trigger] s[j]) == recent_spec(s)[i],
    decreases s.len(),
{
    if s.len() > 0 {
        let t = s.drop_last();
        lemma_recent_list(t);
        let prev = recent_spec(t);
        let r = recent_spec(s);
        assert forall|i: int| #![trigger r[i]] 0 <= i < r.len() implies exists|j: int|
            0 <= j < s.len() && recent_item_of(#[trigger] s[j]) == r[i] by {
            if i < prev.len() {
                let j = choose|j: int| 0 <= j < t.len() && recent_item_of(#[trigger] t[j]) == prev[i];
                assert(s[j] == t[j]);
            } else {
                assert(recent_item_of(s[s.len() - 1]) == r[i]);
            }
        }
        assert forall|i: int, j: int| 0 <= i < j < r.len() implies r[i] != r[j] by {
            if j == prev.len() {
                assert(!prev.contains(r[j]));
                assert(prev[i] == r[i]);
            }
        }
    }
}

/// Nothing is left out of the quick-restart list short of its limit: while it holds
/// fewer than `RECENT_MAX` items, the (trimmed description, project) pair of every entry
/// that has a description or a project is in it, whatever its position in the list.
pub proof fn lemma_recent_complete(s: Seq<TimeEntry>)
    ensures
        recent_spec(s).len() < RECENT_MAX ==> forall|j: int|
            0 <= j < s.len() && !(trim_spec(desc_spec(#[trigger] s[j])).len() == 0
                && s[j].project_id is None) ==> recent_spec(s).contains(
                (trim_spec(desc_spec(s[j])), s[j].project_id),
            ),
    decreases s.len(),
{
    if s.len() > 0 {
        let t = s.drop_last();
        let prev = recent_spec(t);
        let r = recent_spec(s);
        lemma_recent_complete(t);
        assert(prev.len() <= r.len());
        assert forall|x: (Seq<char>, Option<i64>)| prev.contains(x) implies r.contains(x) by {
            let i = choose|i: int| 0 <= i < prev.len() && prev[i] == x;
            assert(r[i] == x);
        }
        if r.len() < RECENT_MAX {
            assert forall|j: int|
                0 <= j < s.len() && !(trim_spec(desc_spec(#[trigger] s[j])).len() == 0
                    && s[j].project_id is None) implies r.contains(
                (trim_spec(desc_spec(s[j])), s[j].project_id),
            ) by {
                if j < t.len() {
                    assert(s[j] == t[j]);
                    assert(prev.contains((trim_spec(desc_spec(t[j])), t[j].project_id)));
                } else {
                    let it = recent_item_of(s.last());
                    assert(s[j] == s.last());
                    if !prev.contains(it) {
                        assert(r[r.len() - 1] == it);
                    }
                }
            }
        }
    }
}

/// Some entry before position `k` of `s` offers the item `x` (its trimmed description and
/// its project).
pub open spec fn offered_before(s: Seq<TimeEntry>, x: (Seq<char>, Option<i64>), k: int) -> bool {
    exists|h: int| 0 <= h < k && (trim_spec(desc_spec(#[trigger] s[h])), s[h].project_id) == x
}

proof fn lemma_offered_before_prefix(t: Seq<TimeEntry>, s: Seq<TimeEntry>, x: (Seq<char>, Option<i64>), k: int)
    requires
        offered_before(t, x, k),
        k <= t.len(),
        t.len() <= s.len(),
        forall|h: int| 0 <= h < t.len() ==> s[h] == t[h],
    ensures
        offered_before(s, x, k),
{
    let h = choose|h: int| 0 <= h < k && (trim_spec(desc_spec(#[trigger] t[h])), t[h].project_id) == x;
    assert(s[h] == t[h]);
}

/// One step of `lemma_recent_order`: the pair `i < j` of the list of `s`, and an entry
/// `k` that offers item `j`.
proof fn lemma_recent_order_step(s: Seq<TimeEntry>, i: int, j: int, k: int)
    requires
        s.len() > 0,
        0 <= i < j < recent_spec(s).len(),
        0 <= k < s.len(),
        (trim_spec(desc_spec(s[k])), s[k].project_id) == recent_spec(s)[j],
        forall|i2: int, j2: int, k2: int|
            #![trigger recent_spec(s.drop_last())[i2], recent_spec(s.drop_last())[j2], s.drop_last()[k2]]
            0 <= i2 < j2 < recent_spec(s.drop_last()).len() && 0 <= k2 < s.drop_last().len() && (
            trim_spec(desc_spec(s.drop_last()[k2])), s.drop_last()[k2].project_id) == recent_spec(
                s.drop_last(),
            )[j2] ==> offered_before(s.drop_last(), recent_spec(s.drop_last())[i2], k2),
    ensures
        offered_before(s, recent_spec(s)[i], k),
{
    let t = s.drop_last();
    let prev = recent_spec(t);
    let r = recent_spec(s);
    assert(r[i] == prev[i]);
    assert forall|h: int| 0 <= h < t.len() implies s[h] == t[h] by {}
    if k == s.len() - 1 {
        lemma_recent_list(t);
        let h = choose|h: int| 0 <= h < t.len() && recent_item_of(#[trigger] t[h]) == prev[i];
        assert(offered_before(t, prev[i], k));
        lemma_offered_before_prefix(t, s, prev[i], k);
    } else {
        assert(s[k] == t[k]);
        if j < prev.len() {
            assert(r[j] == prev[j]);
            assert(offered_before(t, prev[i], k));
            lemma_offered_before_prefix(t, s, prev[i], k);
        } else {
            // `r[j]` was added for the last entry, so no earlier entry offered it.
            lemma_recent_complete(t);
            assert(r[j] == recent_item_of(s.last()));
            assert(prev.len() < RECENT_MAX);
            assert(prev.contains((trim_spec(desc_spec(t[k])), t[k].project_id)));
        }
    }
}

/// The quick-restart list keeps the order in which its items first appear among the
/// entries (newest first): an entry that offers a later item comes after an entry that
/// offers each earlier one.
pub proof fn lemma_recent_order(s: Seq<TimeEntry>)
    ensures
        forall|i: int, j: int, k: int|
            #![trigger recent_spec(s)[i], recent_spec(s)[j], s[k]]
            0 <= i < j < recent_spec(s).len() && 0 <= k < s.len() && (trim_spec(desc_spec(s[k])),
                s[k].project_id) == recent_spec(s)[j] ==> offered_before(s, recent_spec(s)[i], k),
    decreases s.len(),
{
    if s.len() > 0 {
        lemma_recent_order(s.drop_last());
        assert forall|i: int, j: int, k: int|
            #![trigger recent_spec(s)[i], recent_spec(s)[j], s[k]]
            0 <= i < j < recent_spec(s).len() && 0 <= k < s.len() && (trim_spec(desc_spec(s[k])),
                s[k].project_id) == recent_spec(s)[j] implies offered_before(
            s,
            recent_spec(s)[i],
            k,
        ) by {
            lemma_recent_order_step(s, i, j, k);
        }
    }
}

proof fn lemma_recent_full(s: Seq<TimeEntry>, i: int)
    requires
        0 <= i <= s.len(),
        recent_spec(s.take(i)).len() >= RECENT_MAX,
    ensures
        recent_spec(s) == recent_spec(s.take(i)),
    decreases s.len() - i,
{
    if i < s.len() {
        assert(s.take(i + 1).drop_last() =~= s.take(i));
        lemma_recent_full(s, i + 1);
    } else {
        assert(s.take(i) =~= s);
    }
}

fn same_item(a: &RecentItem, desc: &String, project_id: Option<i64>) -> (b: bool)
    ensures
        b == (item_view(*a) == (desc@, project_id)),
{
    let same_project = match (a.project_id, project_id) {
        (Some(x), Some(y)) => x == y,
        (None, None) => true,
        _ => false,
    };
    same_project && a.description == *desc
}

/// The quick-restart list of `entries`, which must be newest first.
pub fn dedupe_recent(entries: &Vec<TimeEntry>) -> (r: Vec<RecentItem>)
    ensures
        r@.map_values(|x: RecentItem| item_view(x)) == recent_spec(entries@),
{
    let mut out: Vec<RecentItem> = Vec::new();
    let mut i: usize = 0;
    while i < entries.len() && out.len() < RECENT_MAX
        invariant
            i <= entries@.len(),
            out@.map_values(|x: RecentItem| item_view(x)) == recent_spec(entries@.take(i as int)),
        decreases entries@.len() - i,
    {
        let e = &entries[i];
        let description = trim(e.desc());
        let project_id = e.project_id;
        let ghost prev = out@.map_values(|x: RecentItem| item_view(x));
        proof {
            assert(entries@.take(i + 1).drop_last() =~= entries@.take(i as int));
            assert(entries@.take(i + 1).last() == entries@[i as int]);
        }
        let blank = description.as_str().unicode_len() == 0 && project_id.is_none();
        if !blank {
            let mut found = false;
            let mut j: usize = 0;
            while j < out.len() && !found
                invariant
                    j <= out@.len(),
                    prev == out@.map_values(|x: RecentItem| item_view(x)),
                    found ==> prev.contains((description@, project_id)),
                    !found ==> forall|m: int| 0 <= m < j ==> prev[m] != (description@, project_id),
                decreases (out@.len() - j) * 2 + (if found { 0int } else { 1 }),
            {
                if same_item(&out[j], &description, project_id) {
                    found = true;
                    proof {
                        assert(prev[j as int] == (description@, project_id));
                    }
                } else {
                    j = j + 1;
                }
            }
            if !found {
                proof {
                    assert(!prev.contains((description@, project_id)));
                }
                out.push(RecentItem { description, project_id });
                proof {
                    assert(out@.map_values(|x: RecentItem| item_view(x)) =~= prev.push(
                        (trim_spec(desc_spec(entries@[i as int])), project_id),
                    ));
                }
            }
        }
        i = i + 1;
    }
    proof {
        if i < entries@.len() {
            lemma_recent_full(entries@, i as int);
        } else {
            assert(entries@.take(i as int) =~= entries@);
        }
    }
    out
}


// ---------------------------------------------------------------- the state

pub struct State {
    pub workspace_id: i64,
    /// The running entry, if any.
    pub current: Option<TimeEntry>,
    /// Every entry of the last 30 days (the running one included), newest first.
    pub entries: Vec<TimeEntry>,
    /// Quick-restart list derived from `entries`.
    pub recent: Vec<RecentItem>,
    pub projects: Vec<Project>,
    /// Project chosen for the next entry.
    pub selected_project: Option<i64>,
    /// Snapshot of the entry open in the editor; the fields live in the popup's EDIT controls.
    pub editing: Option<TimeEntry>,
    pub edit_project: Option<i64>,
    /// Page the editor was opened from, to return to.
    pub edit_from: Page,
    /// The delete button was clicked once; the next click deletes.
    pub delete_armed: bool,
    pub busy: bool,
    pub last_error: Option<String>,
}

impl Default for State {
    fn default() -> (s: State)
        ensures
            s.workspace_id == 0,
            s.current is None,
            s.entries@.len() == 0,
            s.recent@.len() == 0,
            s.projects@.len() == 0,
            s.selected_project is None,
            s.editing is None,
            s.edit_project is None,
            s.edit_from == Page::Main,
            !s.delete_armed,
            !s.busy,
            s.last_error is None,
    {
        State {
            workspace_id: 0,
            current: None,
            entries: Vec::new(),
            recent: Vec::new(),
            projects: Vec::new(),
            selected_project: None,
            editing: None,
            edit_project: None,
            edit_from: Page::Main,
            delete_armed: false,
            busy: false,
            last_error: None,
        }
    }
}

/// The entries are newest first and the quick-restart list is derived from them.
pub open spec fn derived_ok(s: State) -> bool {
    &&& newest_first(s.entries@)
    &&& s.recent@.map_values(|x: RecentItem| item_view(x)) == recent_spec(s.entries@)
}

/// `a` and `b` agree on everything but the entries and the list derived from them.
pub open spec fn same_but_entries(a: State, b: State) -> bool {
    &&& a.workspace_id == b.workspace_id
    &&& a.current == b.current
    &&& a.projects == b.projects
    &&& a.selected_project == b.selected_project
    &&& a.editing == b.editing
    &&& a.edit_project == b.edit_project
    &&& a.edit_from == b.edit_from
    &&& a.delete_armed == b.delete_armed
    &&& a.busy == b.busy
    &&& a.last_error == b.last_error
}

/// The position of the first entry with id `id`, if any.
pub open spec fn first_with_id(s: Seq<TimeEntry>, id: i64) -> Option<int>
    decreases s.len(),
{
    if s.len() == 0 {
        None
    } else if s[0].id == id {
        Some(0)
    } else {
        match first_with_id(s.drop_first(), id) {
            Some(i) => Some(i + 1),
            None => None,
        }
    }
}

/// `s` with the entry that has `e`'s id replaced by `e`, or with `e` added at the end.
pub open spec fn upserted(s: Seq<TimeEntry>, e: TimeEntry) -> Seq<TimeEntry> {
    match first_with_id(s, e.id) {
        Some(i) => s.update(i, e),
        None => s.push(e),
    }
}

/// `s` without the entries that have id `id`.
pub open spec fn without_id(s: Seq<TimeEntry>, id: i64) -> Seq<TimeEntry>
    decreases s.len(),
{
    if s.len() == 0 {
        Seq::empty()
    } else if s.last().id == id {
        without_id(s.drop_last(), id)
    } else {
        without_id(s.drop_last(), id).push(s.last())
    }
}

/// The first running entry.
pub open spec fn first_running(s: Seq<TimeEntry>) -> Option<TimeEntry>
    decreases s.len(),
{
    if s.len() == 0 {
        None
    } else if s[0].duration < 0 {
        Some(s[0])
    } else {
        first_running(s.drop_first())
    }
}

/// The projects that are not archived (`active` missing counts as active).
pub open spec fn active_spec(s: Seq<Project>) -> Seq<Project>
    decreases s.len(),
{
    if s.len() == 0 {
        Seq::empty()
    } else if (match s.last().active {
        Some(a) => a,
        None => true,
    }) {
        active_spec(s.drop_last()).push(s.last())
    } else {
        active_spec(s.drop_last())
    }
}

/// The project list keeps every project not marked inactive, in order, and no other:
/// it is the listing filtered to projects whose `active` is unset or true.
pub proof fn lemma_active_is_filter(s: Seq<Project>)
    ensures
        active_spec(s) == s.filter(|p: Project| p.active != Some(false)),
    decreases s.len(),
{
    reveal(Seq::filter);
    if s.len() > 0 {
        lemma_active_is_filter(s.drop_last());
    }
}


/// The position of the first project with id `id`.
pub open spec fn first_project(s: Seq<Project>, id: i64) -> Option<int>
    decreases s.len(),
{
    if s.len() == 0 {
        None
    } else if s[0].id == id {
        Some(0)
    } else {
        match first_project(s.drop_first(), id) {
            Some(i) => Some(i + 1),
            None => None,
        }
    }
}

/// The project of `projects` that `id` names, if any.
pub open spec fn project_spec(projects: Seq<Project>, id: Option<i64>) -> Option<Project> {
    match id {
        Some(i) => match first_project(projects, i) {
            Some(k) => Some(projects[k]),
            None => None,
        },
        None => None,
    }
}

/// How the project that `id` names is shown: its name and the colour its hex code reads as.
pub open spec fn project_view_spec(projects: Seq<Project>, id: Option<i64>) -> Option<
    (Seq<char>, Option<Rgb>),
> {
    match project_spec(projects, id) {
        Some(p) => Some(
            (
                p.name@,
                match p.color {
                    Some(c) => rgb_of_hex(c@),
                    None => None,
                },
            ),
        ),
        None => None,
    }
}

/// The entry with id `id`: from the list, else the running one.
pub open spec fn entry_spec(s: State, id: i64) -> Option<TimeEntry> {
    match first_with_id(s.entries@, id) {
        Some(i) => Some(s.entries@[i]),
        None => match s.current {
            Some(c) => if c.id == id {
                Some(c)
            } else {
                None
            },
            None => None,
        },
    }
}

fn find_id(s: &Vec<TimeEntry>, id: i64) -> (r: Option<usize>)
    ensures
        r matches Some(i) ==> i < s@.len() && s@[i as int].id == id,
        match r {
            Some(i) => first_with_id(s@, id) == Some(i as int),
            None => first_with_id(s@, id) is None,
        },
{
    let mut i: usize = 0;
    while i < s.len()
        invariant
            i <= s@.len(),
            forall|j: int| 0 <= j < i ==> s@[j].id != id,
        decreases s@.len() - i,
    {
        if s[i].id == id {
            proof {
                lemma_first_with_id(s@, id, i as int);
            }
            return Some(i);
        }
        i = i + 1;
    }
    proof {
        lemma_no_id(s@, id);
    }
    None
}

proof fn lemma_first_with_id(s: Seq<TimeEntry>, id: i64, i: int)
    requires
        0 <= i < s.len(),
        s[i].id == id,
        forall|j: int| 0 <= j < i ==> s[j].id != id,
    ensures
        first_with_id(s, id) == Some(i),
    decreases i,
{
    if i > 0 {
        lemma_first_with_id(s.drop_first(), id, i - 1);
    }
}

proof fn lemma_first_with_id_facts(s: Seq<TimeEntry>, id: i64)
    ensures
        match first_with_id(s, id) {
            Some(i) => 0 <= i < s.len() && s[i].id == id && forall|j: int|
                0 <= j < i ==> #[trigger] s[j].id != id,
            None => forall|j: int| 0 <= j < s.len() ==> #[trigger] s[j].id != id,
        },
    decreases s.len(),
{
    if s.len() > 0 {
        let t = s.drop_first();
        lemma_first_with_id_facts(t, id);
        assert forall|j: int| 1 <= j < s.len() implies #[trigger] s[j] == t[j - 1] by {}
    }
}

/// No two entries of `s` share an id.
pub open spec fn unique_ids(s: Seq<TimeEntry>) -> bool {
    forall|i: int, j: int| 0 <= i < j < s.len() ==> s[i].id != s[j].id
}

/// What is written is read back: once an entry has been put in a list whose ids are
/// unique (`upsert`, re-sort included), the entry found under its id is that entry.
pub proof fn lemma_upsert_read_back(a: State, e: TimeEntry, b: State)
    requires
        unique_ids(a.entries@),
        stable_newest_first(upserted(a.entries@, e), b.entries@),
    ensures
        entry_spec(b, e.id) == Some(e),
{
    let s = a.entries@;
    let r = b.entries@;
    let u = upserted(s, e);
    lemma_first_with_id_facts(s, e.id);
    let ie: int = match first_with_id(s, e.id) {
        Some(i) => i,
        None => s.len() as int,
    };
    assert(0 <= ie < u.len() && u[ie] == e);
    // The entries of `u` with `e`'s id: only `e`.
    assert forall|j: int| 0 <= j < u.len() && #[trigger] u[j].id == e.id implies u[j] == e by {
        if j != ie {
            match first_with_id(s, e.id) {
                Some(i) => {
                    assert(u[j] == s[j]);
                    if j < i {
                        assert(s[j].id != e.id);
                    } else {
                        assert(s[i].id == e.id);
                    }
                },
                None => {
                    assert(u[j] == s[j]);
                },
            }
        }
    }
    // `e` is in `r`.
    let ke = entry_key(e);
    let pe = |x: TimeEntry| entry_key(x) == ke;
    u.lemma_filter_contains(pe, ie);
    assert(with_key(r, ke) == with_key(u, ke));
    r.lemma_filter_contains_rev(pe, e);
    let je = choose|j: int| 0 <= j < r.len() && r[j] == e;
    // The first entry of `r` with `e`'s id is in `u`, so it is `e`.
    lemma_first_with_id_facts(r, e.id);
    let i = first_with_id(r, e.id)->0;
    assert(r[je].id == e.id);
    let x = r[i];
    let kx = entry_key(x);
    let px = |y: TimeEntry| entry_key(y) == kx;
    r.lemma_filter_contains(px, i);
    assert(with_key(r, kx) == with_key(u, kx));
    u.lemma_filter_contains_rev(px, x);
    let jx = choose|j: int| 0 <= j < u.len() && u[j] == x;
    assert(u[jx].id == e.id);
}

proof fn lemma_without_id_has_none(s: Seq<TimeEntry>, id: i64)
    ensures
        forall|j: int|
            0 <= j < without_id(s, id).len() ==> #[trigger] without_id(s, id)[j].id != id,
    decreases s.len(),
{
    if s.len() > 0 {
        lemma_without_id_has_none(s.drop_last(), id);
    }
}

/// What is deleted is gone: after the entries lose the ones with id `id` (and are
/// re-sorted), no entry with that id is left in the list.
pub proof fn lemma_deleted_is_gone(s: Seq<TimeEntry>, id: i64, r: Seq<TimeEntry>)
    requires
        stable_newest_first(without_id(s, id), r),
    ensures
        first_with_id(r, id) is None,
{
    let w = without_id(s, id);
    lemma_without_id_has_none(s, id);
    assert forall|j: int| 0 <= j < r.len() implies #[trigger] r[j].id != id by {
        let x = r[j];
        let k = entry_key(x);
        let p = |y: TimeEntry| entry_key(y) == k;
        r.lemma_filter_contains(p, j);
        assert(with_key(r, k) == with_key(w, k));
        w.lemma_filter_contains_rev(p, x);
        let i = choose|i: int| 0 <= i < w.len() && w[i] == x;
        assert(w[i].id != id);
    }
    lemma_no_id(r, id);
}

/// Taking out an id keeps every other entry, in order: it is the list filtered to the
/// entries with another id.
pub proof fn lemma_without_id_is_filter(s: Seq<TimeEntry>, id: i64)
    ensures
        without_id(s, id) == s.filter(|e: TimeEntry| e.id != id),
    decreases s.len(),
{
    reveal(Seq::filter);
    if s.len() > 0 {
        lemma_without_id_is_filter(s.drop_last(), id);
    }
}

/// `without_id` drops exactly the entries with that id.
proof fn lemma_without_id_members(s: Seq<TimeEntry>, id: i64)
    ensures
        forall|j: int|
            0 <= j < s.len() && (#[trigger] s[j]).id != id ==> without_id(s, id).contains(s[j]),
        forall|j: int|
            0 <= j < without_id(s, id).len() ==> s.contains(#[trigger] without_id(s, id)[j]),
    decreases s.len(),
{
    if s.len() > 0 {
        let t = s.drop_last();
        let wt = without_id(t, id);
        let w = without_id(s, id);
        lemma_without_id_members(t, id);
        assert forall|j: int| 0 <= j < s.len() && (#[trigger] s[j]).id != id implies w.contains(
            s[j],
        ) by {
            if j < t.len() {
                assert(s[j] == t[j]);
                let i = choose|i: int| 0 <= i < wt.len() && wt[i] == t[j];
                assert(w[i] == wt[i]);
            } else {
                assert(w[w.len() - 1] == s[j]);
            }
        }
        assert forall|j: int| 0 <= j < w.len() implies s.contains(#[trigger] w[j]) by {
            if j < wt.len() {
                assert(w[j] == wt[j]);
                assert(t.contains(wt[j]));
                let i = choose|i: int| 0 <= i < t.len() && t[i] == wt[j];
                assert(s[i] == t[i]);
            } else {
                assert(w[j] == s[s.len() - 1]);
            }
        }
    }
}

/// Re-sorting newest first keeps the same entries.
proof fn lemma_sorted_same_members(w: Seq<TimeEntry>, r: Seq<TimeEntry>)
    requires
        stable_newest_first(w, r),
    ensures
        forall|x: TimeEntry| #![trigger w.contains(x)] #![trigger r.contains(x)]
            w.contains(x) <==> r.contains(x),
{
    assert forall|x: TimeEntry| w.contains(x) implies r.contains(x) by {
        let i = choose|i: int| 0 <= i < w.len() && w[i] == x;
        let k = entry_key(x);
        let p = |y: TimeEntry| entry_key(y) == k;
        w.lemma_filter_contains(p, i);
        assert(with_key(r, k) == with_key(w, k));
        r.lemma_filter_contains_rev(p, x);
    }
    assert forall|x: TimeEntry| r.contains(x) implies w.contains(x) by {
        let j = choose|j: int| 0 <= j < r.len() && r[j] == x;
        let k = entry_key(x);
        let p = |y: TimeEntry| entry_key(y) == k;
        r.lemma_filter_contains(p, j);
        assert(with_key(r, k) == with_key(w, k));
        w.lemma_filter_contains_rev(p, x);
    }
}

proof fn lemma_first_running_facts(s: Seq<TimeEntry>)
    ensures
        match first_running(s) {
            Some(c) => exists|i: int|
                0 <= i < s.len() && #[trigger] s[i] == c && c.duration < 0 && forall|j: int|
                    0 <= j < i ==> (#[trigger] s[j]).duration >= 0,
            None => forall|j: int| 0 <= j < s.len() ==> (#[trigger] s[j]).duration >= 0,
        },
    decreases s.len(),
{
    if s.len() > 0 && s[0].duration >= 0 {
        let t = s.drop_first();
        lemma_first_running_facts(t);
        assert forall|j: int| 1 <= j < s.len() implies #[trigger] s[j] == t[j - 1] by {}
        match first_running(t) {
            Some(c) => {
                let i = choose|i: int|
                    0 <= i < t.len() && #[trigger] t[i] == c && c.duration < 0 && forall|j: int|
                        0 <= j < i ==> (#[trigger] t[j]).duration >= 0;
                assert(s[i + 1] == c);
                assert forall|j: int| 0 <= j < i + 1 implies (#[trigger] s[j]).duration >= 0 by {
                    if j > 0 {
                        assert(s[j] == t[j - 1]);
                    }
                }
            },
            None => {
                assert forall|j: int| 0 <= j < s.len() implies (#[trigger] s[j]).duration >= 0 by {
                    if j > 0 {
                        assert(s[j] == t[j - 1]);
                    }
                }
            },
        }
    }
}

/// After a sync the running entry is the newest one that runs: it is in the list, it
/// runs, and no entry listed before it does; when none runs, there is no running entry.
pub proof fn lemma_synced_running(
    a: State,
    workspace_id: Option<i64>,
    entries: Vec<TimeEntry>,
    projects: Vec<Project>,
    b: State,
    fx: Effects,
)
    requires
        applied(a, (Msg::Synced { workspace_id, entries, projects }), b, fx),
    ensures
        match b.current {
            Some(c) => exists|i: int|
                0 <= i < b.entries@.len() && #[trigger] b.entries@[i] == c && c.duration < 0
                    && forall|j: int| 0 <= j < i ==> (#[trigger] b.entries@[j]).duration >= 0,
            None => forall|j: int|
                0 <= j < b.entries@.len() ==> (#[trigger] b.entries@[j]).duration >= 0,
        },
{
    lemma_first_running_facts(b.entries@);
}

/// A delete takes out that entry and nothing else: after a `Deleted(id)` reply every
/// old entry with another id is still listed, and every listed entry is an old one with
/// another id.
pub proof fn lemma_delete_keeps_others(a: State, id: i64, b: State, fx: Effects)
    requires
        applied(a, Msg::Deleted(id), b, fx),
    ensures
        forall|j: int|
            0 <= j < a.entries@.len() && (#[trigger] a.entries@[j]).id != id
                ==> b.entries@.contains(a.entries@[j]),
        forall|j: int|
            0 <= j < b.entries@.len() ==> (#[trigger] b.entries@[j]).id != id
                && a.entries@.contains(b.entries@[j]),
{
    let s = a.entries@;
    let r = b.entries@;
    let w = without_id(s, id);
    lemma_without_id_members(s, id);
    lemma_without_id_has_none(s, id);
    lemma_sorted_same_members(w, r);
    assert forall|j: int| 0 <= j < r.len() implies (#[trigger] r[j]).id != id && s.contains(
        r[j],
    ) by {
        assert(w.contains(r[j]));
        let i = choose|i: int| 0 <= i < w.len() && w[i] == r[j];
        assert(w[i].id != id);
        assert(s.contains(w[i]));
    }
}

/// Writing an entry (a start, stop or update reply) keeps the others: the list then holds
/// the written entry, every old entry with another id, and nothing that is neither the
/// written entry nor an old one.
pub proof fn lemma_upsert_keeps_others(a: State, e: TimeEntry, b: State)
    requires
        stable_newest_first(upserted(a.entries@, e), b.entries@),
    ensures
        b.entries@.contains(e),
        forall|j: int|
            0 <= j < a.entries@.len() && (#[trigger] a.entries@[j]).id != e.id
                ==> b.entries@.contains(a.entries@[j]),
        forall|j: int|
            0 <= j < b.entries@.len() ==> #[trigger] b.entries@[j] == e || a.entries@.contains(
                b.entries@[j],
            ),
{
    let s = a.entries@;
    let r = b.entries@;
    let u = upserted(s, e);
    lemma_sorted_same_members(u, r);
    lemma_first_with_id_facts(s, e.id);
    match first_with_id(s, e.id) {
        Some(i) => {
            assert(u[i] == e);
            assert forall|j: int| 0 <= j < s.len() && (#[trigger] s[j]).id != e.id implies r.contains(
                s[j],
            ) by {
                assert(u[j] == s[j]);
            }
            assert forall|j: int| 0 <= j < r.len() implies #[trigger] r[j] == e || s.contains(r[j]) by {
                assert(u.contains(r[j]));
                let k = choose|k: int| 0 <= k < u.len() && u[k] == r[j];
                if k != i {
                    assert(u[k] == s[k]);
                }
            }
        },
        None => {
            assert(u[s.len() as int] == e);
            assert forall|j: int| 0 <= j < s.len() && (#[trigger] s[j]).id != e.id implies r.contains(
                s[j],
            ) by {
                assert(u[j] == s[j]);
            }
            assert forall|j: int| 0 <= j < r.len() implies #[trigger] r[j] == e || s.contains(r[j]) by {
                assert(u.contains(r[j]));
                let k = choose|k: int| 0 <= k < u.len() && u[k] == r[j];
                if k < s.len() {
                    assert(u[k] == s[k]);
                }
            }
        },
    }
}

proof fn lemma_no_id(s: Seq<TimeEntry>, id: i64)
    requires
        forall|j: int| 0 <= j < s.len() ==> s[j].id != id,
    ensures
        first_with_id(s, id) is None,
    decreases s.len(),
{
    if s.len() > 0 {
        lemma_no_id(s.drop_first(), id);
    }
}

fn find_project(s: &Vec<Project>, id: i64) -> (r: Option<usize>)
    ensures
        r matches Some(i) ==> i < s@.len() && s@[i as int].id == id,
        match r {
            Some(i) => first_project(s@, id) == Some(i as int),
            None => first_project(s@, id) is None,
        },
{
    let mut i: usize = 0;
    while i < s.len()
        invariant
            i <= s@.len(),
            forall|j: int| 0 <= j < i ==> s@[j].id != id,
        decreases s@.len() - i,
    {
        if s[i].id == id {
            proof {
                lemma_first_project(s@, id, i as int);
            }
            return Some(i);
        }
        i = i + 1;
    }
    proof {
        lemma_no_project(s@, id);
    }
    None
}

proof fn lemma_first_project(s: Seq<Project>, id: i64, i: int)
    requires
        0 <= i < s.len(),
        s[i].id == id,
        forall|j: int| 0 <= j < i ==> s[j].id != id,
    ensures
        first_project(s, id) == Some(i),
    decreases i,
{
    if i > 0 {
        lemma_first_project(s.drop_first(), id, i - 1);
    }
}

proof fn lemma_no_project(s: Seq<Project>, id: i64)
    requires
        forall|j: int| 0 <= j < s.len() ==> s[j].id != id,
    ensures
        first_project(s, id) is None,
    decreases s.len(),
{
    if s.len() > 0 {
        lemma_no_project(s.drop_first(), id);
    }
}

proof fn lemma_first_with_id_bounds(s: Seq<TimeEntry>, id: i64)
    ensures
        first_with_id(s, id) matches Some(i) ==> 0 <= i < s.len() && s[i].id == id,
    decreases s.len(),
{
    if s.len() > 0 {
        lemma_first_with_id_bounds(s.drop_first(), id);
    }
}

proof fn lemma_first_project_bounds(s: Seq<Project>, id: i64)
    ensures
        first_project(s, id) matches Some(i) ==> 0 <= i < s.len() && s[i].id == id,
    decreases s.len(),
{
    if s.len() > 0 {
        lemma_first_project_bounds(s.drop_first(), id);
    }
}

fn retain_other_ids(s: &Vec<TimeEntry>, id: i64) -> (r: Vec<TimeEntry>)
    ensures
        r@ == without_id(s@, id),
{
    let mut r: Vec<TimeEntry> = Vec::new();
    let mut i: usize = 0;
    while i < s.len()
        invariant
            i <= s@.len(),
            r@ == without_id(s@.take(i as int), id),
        decreases s@.len() - i,
    {
        proof {
            assert(s@.take(i + 1).drop_last() =~= s@.take(i as int));
            assert(s@.take(i + 1).last() == s@[i as int]);
        }
        if s[i].id != id {
            r.push(s[i].duplicate());
        }
        i = i + 1;
    }
    proof {
        assert(s@.take(s@.len() as int) =~= s@);
    }
    r
}

fn active_projects(s: &Vec<Project>) -> (r: Vec<Project>)
    ensures
        r@ == active_spec(s@),
{
    let mut r: Vec<Project> = Vec::new();
    let mut i: usize = 0;
    while i < s.len()
        invariant
            i <= s@.len(),
            r@ == active_spec(s@.take(i as int)),
        decreases s@.len() - i,
    {
        proof {
            assert(s@.take(i + 1).drop_last() =~= s@.take(i as int));
            assert(s@.take(i + 1).last() == s@[i as int]);
        }
        let keep = match s[i].active {
            Some(a) => a,
            None => true,
        };
        if keep {
            r.push(s[i].duplicate());
        }
        i = i + 1;
    }
    proof {
        assert(s@.take(s@.len() as int) =~= s@);
    }
    r
}

fn find_running(s: &Vec<TimeEntry>) -> (r: Option<TimeEntry>)
    ensures
        r == first_running(s@),
{
    let mut i: usize = 0;
    assert(s@.skip(0) =~= s@);
    while i < s.len()
        invariant
            i <= s@.len(),
            first_running(s@) == first_running(s@.skip(i as int)),
        decreases s@.len() - i,
    {
        proof {
            let t = s@.skip(i as int);
            assert(t[0] == s@[i as int]);
            assert(t.drop_first() =~= s@.skip(i + 1));
        }
        if s[i].duration < 0 {
            return Some(s[i].duplicate());
        }
        i = i + 1;
    }
    proof {
        assert(s@.skip(i as int) =~= Seq::<TimeEntry>::empty());
    }
    None
}

impl State {
    /// The project that `id` names, if any.
    pub fn project(&self, id: Option<i64>) -> (r: Option<&Project>)
        ensures
            match r {
                Some(p) => project_spec(self.projects@, id) == Some(*p),
                None => project_spec(self.projects@, id) is None,
            },
    {
        match id {
            Some(i) => match find_project(&self.projects, i) {
                Some(k) => Some(&self.projects[k]),
                None => None,
            },
            None => None,
        }
    }

    /// How the project that `id` names is shown.
    pub fn project_view(&self, id: Option<i64>) -> (r: Option<ProjectView>)
        ensures
            match project_spec(self.projects@, id) {
                Some(p) => r matches Some(v) && v.name@ == p.name@ && v.color == (match p.color {
                    Some(c) => rgb_of_hex(c@),
                    None => None,
                }),
                None => r is None,
            },
            project_view_of(r) == project_view_spec(self.projects@, id),
    {
        match self.project(id) {
            Some(p) => Some(
                ProjectView {
                    name: p.name.clone(),
                    color: match &p.color {
                        Some(c) => Rgb::from_hex(c.as_str()),
                        None => None,
                    },
                },
            ),
            None => None,
        }
    }

    /// Keeps `entries` newest first and re-derives the quick-restart list.
    pub fn entries_changed(&mut self)
        ensures
            stable_newest_first(old(self).entries@, final(self).entries@),
            derived_ok(*final(self)),
            same_but_entries(*old(self), *final(self)),
    {
        self.entries = sort_newest_first(&self.entries);
        self.recent = dedupe_recent(&self.entries);
    }

    /// Puts `entry` in place of the entry with its id, or adds it; then re-sorts.
    pub fn upsert(&mut self, entry: TimeEntry)
        ensures
            stable_newest_first(upserted(old(self).entries@, entry), final(self).entries@),
            derived_ok(*final(self)),
            same_but_entries(*old(self), *final(self)),
    {
        match find_id(&self.entries, entry.id) {
            Some(i) => {
                self.entries.set(i, entry);
            },
            None => {
                self.entries.push(entry);
            },
        }
        self.entries_changed();
    }

    /// The entry with id `id`, the running one included.
    pub fn entry(&self, id: i64) -> (r: Option<&TimeEntry>)
        ensures
            match r {
                Some(e) => entry_spec(*self, id) == Some(*e),
                None => entry_spec(*self, id) is None,
            },
    {
        match find_id(&self.entries, id) {
            Some(i) => Some(&self.entries[i]),
            None => match &self.current {
                Some(c) => if c.id == id {
                    Some(c)
                } else {
                    None
                },
                None => None,
            },
        }
    }
}


// ---------------------------------------------------------------- replies

/// A reply from the worker thread that talks to the API.
pub enum Msg {
    Synced {
        /// Freshly fetched from `/me`; None when the cached one was used.
        workspace_id: Option<i64>,
        entries: Vec<TimeEntry>,
        projects: Vec<Project>,
    },
    Started(TimeEntry),
    Stopped(TimeEntry),
    Updated(TimeEntry),
    Deleted(i64),
    Error(String),
}

/// What the application has to do after a reply, besides redrawing.
pub struct Effects {
    /// A freshly fetched default workspace, to remember in the settings file.
    pub save_workspace: Option<i64>,
    /// A new entry was started from the description field, which is to be cleared.
    pub clear_description: bool,
    /// The entry open in the editor was saved or deleted; the editor closes if showing.
    pub editor_done: bool,
    /// An error to report (as a notification when the popup is hidden).
    pub error: Option<String>,
}

/// Everything but the entries, the running entry, the projects, the chosen project
/// and the error message is left as it was, and the state is no longer busy.
pub open spec fn rest_kept(a: State, b: State) -> bool {
    &&& b.editing == a.editing
    &&& b.edit_project == a.edit_project
    &&& b.edit_from == a.edit_from
    &&& b.delete_armed == a.delete_armed
    &&& !b.busy
}

pub open spec fn no_effects(fx: Effects) -> bool {
    fx.save_workspace is None && !fx.clear_description && !fx.editor_done && fx.error is None
}

/// `b` and `fx` are the state and the effects after the reply `msg` reached state `a`.
pub open spec fn applied(a: State, msg: Msg, b: State, fx: Effects) -> bool {
    &&& rest_kept(a, b)
    &&& (msg !is Error ==> derived_ok(b))
    &&& match msg {
        Msg::Synced { workspace_id, entries, projects } => {
            &&& b.workspace_id == (match workspace_id {
                Some(w) => w,
                None => a.workspace_id,
            })
            &&& b.projects@ == active_spec(projects@)
            &&& stable_newest_first(entries@, b.entries@)
            &&& b.current == first_running(b.entries@)
            &&& b.selected_project == a.selected_project
            &&& b.last_error is None
            &&& fx.save_workspace == workspace_id
            &&& !fx.clear_description && !fx.editor_done && fx.error is None
        },
        Msg::Started(e) => {
            &&& b.workspace_id == a.workspace_id && b.projects == a.projects
            &&& b.current == Some(e)
            &&& stable_newest_first(upserted(a.entries@, e), b.entries@)
            &&& b.selected_project is None
            &&& b.last_error is None
            &&& fx.clear_description
            &&& fx.save_workspace is None && !fx.editor_done && fx.error is None
        },
        Msg::Stopped(e) => {
            &&& b.workspace_id == a.workspace_id && b.projects == a.projects
            &&& b.current is None
            &&& stable_newest_first(upserted(a.entries@, e), b.entries@)
            &&& b.selected_project == a.selected_project
            &&& b.last_error is None
            &&& no_effects(fx)
        },
        Msg::Updated(e) => {
            &&& b.workspace_id == a.workspace_id && b.projects == a.projects
            &&& b.current == (match a.current {
                Some(c) => if c.id == e.id {
                    if e.duration < 0 {
                        Some(e)
                    } else {
                        None
                    }
                } else {
                    a.current
                },
                None => a.current,
            })
            &&& stable_newest_first(upserted(a.entries@, e), b.entries@)
            &&& b.selected_project == a.selected_project
            &&& b.last_error is None
            &&& fx.editor_done == (a.editing matches Some(x) && x.id == e.id)
            &&& fx.save_workspace is None && !fx.clear_description && fx.error is None
        },
        Msg::Deleted(id) => {
            &&& b.workspace_id == a.workspace_id && b.projects == a.projects
            &&& b.current == (match a.current {
                Some(c) => if c.id == id {
                    None
                } else {
                    a.current
                },
                None => a.current,
            })
            &&& stable_newest_first(without_id(a.entries@, id), b.entries@)
            &&& b.selected_project == a.selected_project
            &&& b.last_error is None
            &&& fx.editor_done == (a.editing matches Some(x) && x.id == id)
            &&& fx.save_workspace is None && !fx.clear_description && fx.error is None
        },
        Msg::Error(e) => {
            &&& b.workspace_id == a.workspace_id && b.projects == a.projects
            &&& b.current == a.current
            &&& b.entries == a.entries
            &&& b.recent == a.recent
            &&& b.selected_project == a.selected_project
            &&& b.last_error == Some(e)
            &&& fx.error == Some(e)
            &&& fx.save_workspace is None && !fx.clear_description && !fx.editor_done
        },
    }
}

fn clone_opt_entry(o: &Option<TimeEntry>) -> (r: Option<TimeEntry>)
    ensures
        r == *o,
{
    match o {
        Some(e) => Some(e.duplicate()),
        None => None,
    }
}

impl State {
    /// Takes in one reply of the worker thread.
    pub fn apply(&mut self, msg: Msg) -> (fx: Effects)
        ensures
            applied(*old(self), msg, *final(self), fx),
    {
        self.busy = false;
        let mut fx = Effects {
            save_workspace: None,
            clear_description: false,
            editor_done: false,
            error: None,
        };
        match msg {
            Msg::Synced { workspace_id, entries, projects } => {
                if let Some(wid) = workspace_id {
                    self.workspace_id = wid;
                    fx.save_workspace = Some(wid);
                }
                self.projects = active_projects(&projects);
                self.entries = entries;
                self.entries_changed();
                self.current = find_running(&self.entries);
                self.last_error = None;
            },
            Msg::Started(entry) => {
                self.current = Some(entry.duplicate());
                self.upsert(entry);
                self.selected_project = None;
                self.last_error = None;
                fx.clear_description = true;
            },
            Msg::Stopped(entry) => {
                self.current = None;
                self.upsert(entry);
                self.last_error = None;
            },
            Msg::Updated(entry) => {
                let same_as_current = match &self.current {
                    Some(c) => c.id == entry.id,
                    None => false,
                };
                if same_as_current {
                    self.current = if entry.is_running() {
                        Some(entry.duplicate())
                    } else {
                        None
                    };
                }
                fx.editor_done = match &self.editing {
                    Some(e) => e.id == entry.id,
                    None => false,
                };
                self.upsert(entry);
                self.last_error = None;
            },
            Msg::Deleted(id) => {
                let same_as_current = match &self.current {
                    Some(c) => c.id == id,
                    None => false,
                };
                if same_as_current {
                    self.current = None;
                }
                fx.editor_done = match &self.editing {
                    Some(e) => e.id == id,
                    None => false,
                };
                self.entries = retain_other_ids(&self.entries, id);
                self.entries_changed();
                self.last_error = None;
            },
            Msg::Error(e) => {
                self.last_error = Some(e.clone());
                fx.error = Some(e);
            },
        }
        fx
    }

    /// Leaves the editor: forgets the entry and the armed delete button, and tells
    /// which page the editor was opened from.
    pub fn leave_editor(&mut self) -> (from: Page)
        ensures
            from == old(self).edit_from,
            final(self).editing is None,
            !final(self).delete_armed,
            final(self).last_error is None,
            final(self).edit_from == old(self).edit_from,
            same_but_editor(*old(self), *final(self)),
    {
        self.editing = None;
        self.delete_armed = false;
        self.last_error = None;
        self.edit_from
    }

    /// Opens the editor on `entry`, coming from page `from` (only the history page is
    /// remembered; the editor returns to the main page otherwise).
    pub fn begin_edit(&mut self, entry: TimeEntry, from: Page)
        ensures
            final(self).editing == Some(entry),
            final(self).edit_project == entry.project_id,
            final(self).edit_from == (if from == Page::History {
                Page::History
            } else {
                Page::Main
            }),
            !final(self).delete_armed,
            final(self).last_error is None,
            same_but_editor(*old(self), *final(self)),
    {
        self.edit_project = entry.project_id;
        self.edit_from = if from == Page::History {
            Page::History
        } else {
            Page::Main
        };
        self.editing = Some(entry);
        self.delete_armed = false;
        self.last_error = None;
    }

    /// A click on the editor's delete button: the first one arms it, the second asks
    /// for the entry (workspace, id) to be deleted. Nothing happens while busy or with
    /// no entry open.
    pub fn delete_click(&mut self) -> (r: Option<(i64, i64)>)
        ensures
            if old(self).busy || old(self).editing is None {
                r is None && *final(self) == *old(self)
            } else if !old(self).delete_armed {
                r is None && final(self).delete_armed && same_but_armed(*old(self), *final(self))
            } else {
                r == Some((old(self).editing->0.workspace_id, old(self).editing->0.id))
                    && *final(self) == *old(self)
            },
    {
        if self.busy {
            return None;
        }
        let (wid, id) = match &self.editing {
            Some(e) => (e.workspace_id, e.id),
            None => return None,
        };
        if !self.delete_armed {
            self.delete_armed = true;
            return None;
        }
        Some((wid, id))
    }

    /// Any action but the confirming click disarms the delete button; true when it
    /// was armed (the popup has to be redrawn).
    pub fn disarm(&mut self) -> (was_armed: bool)
        ensures
            was_armed == old(self).delete_armed,
            !final(self).delete_armed,
            same_but_armed(*old(self), *final(self)),
    {
        let was = self.delete_armed;
        self.delete_armed = false;
        was
    }

    /// The workspace to stop the running entry in: its own, else the account's.
    pub fn stop_workspace(&self) -> (wid: i64)
        ensures
            wid == (match self.current {
                Some(c) => if c.workspace_id > 0 {
                    c.workspace_id
                } else {
                    self.workspace_id
                },
                None => self.workspace_id,
            }),
    {
        match &self.current {
            Some(c) => if c.workspace_id > 0 {
                c.workspace_id
            } else {
                self.workspace_id
            },
            None => self.workspace_id,
        }
    }

    /// A sync asks `/me` for the default workspace only while none is known: the plan's
    /// request quota is small.
    pub fn needs_workspace(&self) -> (b: bool)
        ensures
            b == (self.workspace_id <= 0),
    {
        self.workspace_id <= 0
    }

    /// Whether an entry can be started now: not while busy; before the workspace is
    /// known, the error `err_not_synced` is shown and a sync is due instead.
    pub fn start_check(&mut self, s: &Strings) -> (r: StartStep)
        ensures
            if old(self).busy {
                r == StartStep::Ignore && *final(self) == *old(self)
            } else if old(self).workspace_id == 0 {
                r == StartStep::SyncFirst && (final(self).last_error matches Some(e) && e@
                    == s.err_not_synced@) && same_but_error(*old(self), *final(self))
            } else {
                r == StartStep::Start(old(self).workspace_id) && *final(self) == *old(self)
            },
    {
        if self.busy {
            return StartStep::Ignore;
        }
        if self.workspace_id == 0 {
            self.last_error = Some(s.err_not_synced.to_owned());
            return StartStep::SyncFirst;
        }
        StartStep::Start(self.workspace_id)
    }

    /// Records the project picked in the chooser (`choice` is its position in the
    /// project list; None picks no project) for the entry being edited or the next one.
    pub fn choose_project(&mut self, editing: bool, choice: Option<usize>)
        ensures
            ({
                let id = match choice {
                    Some(i) => if i < old(self).projects@.len() {
                        Some(old(self).projects@[i as int].id)
                    } else {
                        None
                    },
                    None => None,
                };
                if editing {
                    final(self).edit_project == id && final(self).selected_project == old(
                        self,
                    ).selected_project
                } else {
                    final(self).selected_project == id && final(self).edit_project == old(
                        self,
                    ).edit_project
                }
            }),
            final(self).projects == old(self).projects,
            final(self).entries == old(self).entries,
            final(self).editing == old(self).editing,
    {
        let id = match choice {
            Some(i) => if i < self.projects.len() {
                Some(self.projects[i].id)
            } else {
                None
            },
            None => None,
        };
        if editing {
            self.edit_project = id;
        } else {
            self.selected_project = id;
        }
    }

    /// The position in the project list of the project chosen for the entry being
    /// edited or the next one.
    pub fn chosen_index(&self, editing: bool) -> (r: Option<usize>)
        ensures
            ({
                let sel = if editing {
                    self.edit_project
                } else {
                    self.selected_project
                };
                match sel {
                    Some(id) => match first_project(self.projects@, id) {
                        Some(k) => r == Some(k as usize),
                        None => r is None,
                    },
                    None => r is None,
                }
            }),
    {
        let sel = if editing {
            self.edit_project
        } else {
            self.selected_project
        };
        match sel {
            Some(id) => find_project(&self.projects, id),
            None => None,
        }
    }
}

/// The outcome of `State::start_check`.
#[derive(PartialEq, Eq, Structural)]
pub enum StartStep {
    /// Busy: do nothing.
    Ignore,
    /// The workspace is not known yet: sync first.
    SyncFirst,
    /// Start an entry in this workspace.
    Start(i64),
}

pub open spec fn same_but_editor(a: State, b: State) -> bool {
    &&& a.workspace_id == b.workspace_id
    &&& a.current == b.current
    &&& a.entries == b.entries
    &&& a.recent == b.recent
    &&& a.projects == b.projects
    &&& a.selected_project == b.selected_project
    &&& a.busy == b.busy
}

pub open spec fn same_but_armed(a: State, b: State) -> bool {
    &&& same_but_editor(a, b)
    &&& a.editing == b.editing
    &&& a.edit_project == b.edit_project
    &&& a.edit_from == b.edit_from
    &&& a.last_error == b.last_error
}

pub open spec fn same_but_error(a: State, b: State) -> bool {
    &&& same_but_editor(a, b)
    &&& a.editing == b.editing
    &&& a.edit_project == b.edit_project
    &&& a.edit_from == b.edit_from
    &&& a.delete_armed == b.delete_armed
}

} // verus!
