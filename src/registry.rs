//! The directory's registry of backends: each backend id with the count of
//! keys placed on it, and the load-biased placement of new keys.
use vstd::prelude::*;

use crate::keys::{canonical_id, canonical_url, is_canonical};

verus! {

/// Every id occurs once.
pub open spec fn unique_ids(e: Seq<(Seq<char>, u32)>) -> bool {
    forall|i: int, j: int|
        0 <= i < e.len() && 0 <= j < e.len() && #[trigger] e[i].0 == #[trigger] e[j].0 ==> i == j
}

/// What the registry always holds: unique ids, each in canonical form.
pub open spec fn well_formed(e: Seq<(Seq<char>, u32)>) -> bool {
    &&& unique_ids(e)
    &&& forall|i: int| 0 <= i < e.len() ==> is_canonical(#[trigger] e[i].0)
}

/// `id` is registered in `e`.
pub open spec fn has_id(e: Seq<(Seq<char>, u32)>, id: Seq<char>) -> bool {
    exists|i: int| 0 <= i < e.len() && #[trigger] e[i].0 == id
}

/// The count of `id` in `e`, when it is registered.
pub open spec fn count_in(e: Seq<(Seq<char>, u32)>, id: Seq<char>) -> Option<u32> {
    if has_id(e, id) {
        Some(e[choose|i: int| 0 <= i < e.len() && #[trigger] e[i].0 == id].1)
    } else {
        None
    }
}

/// `e` after an add of `id`: appended with count zero unless it is already there.
pub open spec fn with_volume(e: Seq<(Seq<char>, u32)>, id: Seq<char>) -> Seq<(Seq<char>, u32)> {
    if has_id(e, id) {
        e
    } else {
        e.push((id, 0u32))
    }
}

/// A counter one up, held at its maximum.
pub open spec fn count_up(c: u32) -> u32 {
    if c < u32::MAX {
        (c + 1) as u32
    } else {
        c
    }
}

/// A counter one down, held at zero.
pub open spec fn count_down(c: u32) -> u32 {
    if c > 0 {
        (c - 1) as u32
    } else {
        0
    }
}

/// `e` with the counter of `id` one up; `e` itself when `id` is not there.
pub open spec fn bumped(e: Seq<(Seq<char>, u32)>, id: Seq<char>) -> Seq<(Seq<char>, u32)> {
    e.map_values(|p: (Seq<char>, u32)| if p.0 == id { (p.0, count_up(p.1)) } else { p })
}

/// `e` with the counter of `id` one down; `e` itself when `id` is not there.
pub open spec fn dropped(e: Seq<(Seq<char>, u32)>, id: Seq<char>) -> Seq<(Seq<char>, u32)> {
    e.map_values(|p: (Seq<char>, u32)| if p.0 == id { (p.0, count_down(p.1)) } else { p })
}

/// The registry built from a list of urls: each added in turn, in canonical form.
pub open spec fn registered(urls: Seq<Seq<char>>) -> Seq<(Seq<char>, u32)>
    decreases urls.len(),
{
    if urls.len() == 0 {
        Seq::empty()
    } else {
        with_volume(registered(urls.drop_last()), canonical_id(urls.last()))
    }
}

/// The sum of all counters.
pub open spec fn total(e: Seq<(Seq<char>, u32)>) -> nat
    decreases e.len(),
{
    if e.len() == 0 {
        0
    } else {
        total(e.drop_last()) + e.last().1 as nat
    }
}

/// The scale of a draw: a draw `n` stands for the point `n / DRAW_SCALE` of `[0, 1)`.
pub const DRAW_SCALE: u64 = 0x1_0000_0000;

/// The weight of a backend in placement: its count, and at least one.
pub open spec fn weight(c: u32) -> nat {
    if c == 0 {
        1
    } else {
        c as nat
    }
}

/// The sum of the weights of the first `n` backends.
pub open spec fn prefix_weight(e: Seq<(Seq<char>, u32)>, n: nat) -> nat
    decreases n,
{
    if n == 0 {
        0
    } else {
        prefix_weight(e, (n - 1) as nat) + weight(e[n - 1].1)
    }
}

/// Whether backend `k` takes a key on draw `n`.
///
/// With `C` the largest weight and `T_k` the sum of the weights up to `k`, the
/// draw stands for `r = C * n / DRAW_SCALE`, uniform on `[0, C)`, and the test
/// `r <= C / T_k` holds exactly when `n * T_k <= DRAW_SCALE`.
pub open spec fn accepts(e: Seq<(Seq<char>, u32)>, k: int, draw: u32) -> bool {
    draw * prefix_weight(e, (k + 1) as nat) <= DRAW_SCALE
}

/// The first backend from `k` on that takes the key; the last one when none does.
pub open spec fn pick_from(e: Seq<(Seq<char>, u32)>, draw: u32, k: int) -> int
    decreases e.len() - k,
{
    if k + 1 >= e.len() {
        e.len() - 1
    } else if accepts(e, k, draw) {
        k
    } else {
        pick_from(e, draw, k + 1)
    }
}

/// The index of the backend that placement picks on draw `draw`.
pub open spec fn placement(e: Seq<(Seq<char>, u32)>, draw: u32) -> int {
    pick_from(e, draw, 0)
}

proof fn lemma_prefix_weight_grows(e: Seq<(Seq<char>, u32)>, m: nat, n: nat)
    requires
        m <= n,
    ensures
        prefix_weight(e, m) <= prefix_weight(e, n),
    decreases n - m,
{
    if m < n {
        lemma_prefix_weight_grows(e, m, (n - 1) as nat);
    }
}

/// Once the weights up to `k` pass the scale, no backend from `k` on takes a
/// key on a draw other than zero.
proof fn lemma_pick_past_scale(e: Seq<(Seq<char>, u32)>, draw: u32, k: int)
    requires
        0 <= k < e.len(),
        draw >= 1,
        prefix_weight(e, (k + 1) as nat) > DRAW_SCALE,
    ensures
        pick_from(e, draw, k) == e.len() - 1,
    decreases e.len() - k,
{
    if k + 1 < e.len() {
        let w = prefix_weight(e, (k + 1) as nat);
        assert(draw * w >= w) by (nonlinear_arith)
            requires
                draw >= 1,
                w >= 0,
        ;
        lemma_prefix_weight_grows(e, (k + 1) as nat, (k + 2) as nat);
        lemma_pick_past_scale(e, draw, k + 1);
    }
}

/// Placement picks a registered backend whenever there is one.
pub proof fn lemma_placement_in_range(e: Seq<(Seq<char>, u32)>, draw: u32, k: int)
    requires
        0 <= k < e.len(),
    ensures
        k <= pick_from(e, draw, k) < e.len(),
    decreases e.len() - k,
{
    if k + 1 < e.len() && !accepts(e, k, draw) {
        lemma_placement_in_range(e, draw, k + 1);
    }
}

/// Adding a canonical id keeps the registry well formed.
pub proof fn lemma_with_volume_well_formed(e: Seq<(Seq<char>, u32)>, id: Seq<char>)
    requires
        well_formed(e),
        is_canonical(id),
    ensures
        well_formed(with_volume(e, id)),
        has_id(with_volume(e, id), id),
{
    if !has_id(e, id) {
        let f = e.push((id, 0u32));
        assert(f[e.len() as int].0 == id);
        assert forall|i: int, j: int|
            0 <= i < f.len() && 0 <= j < f.len() && #[trigger] f[i].0 == #[trigger] f[j].0 implies i
            == j by {
            if i < e.len() && j < e.len() {
                assert(e[i].0 == f[i].0 && e[j].0 == f[j].0);
            } else if i < e.len() {
                assert(e[i].0 == id);
            } else if j < e.len() {
                assert(e[j].0 == id);
            }
        }
        assert forall|i: int| 0 <= i < f.len() implies is_canonical(#[trigger] f[i].0) by {
            if i < e.len() {
                assert(f[i] == e[i]);
            }
        }
    }
}

/// Adding the same backend twice leaves one entry for it: the second add
/// finds it registered (and so answers that it skips a duplicate) and changes
/// nothing.
pub proof fn lemma_add_volume_twice(e: Seq<(Seq<char>, u32)>, url: Seq<char>)
    requires
        well_formed(e),
    ensures
        has_id(with_volume(e, canonical_id(url)), canonical_id(url)),
        with_volume(with_volume(e, canonical_id(url)), canonical_id(url)) == with_volume(
            e,
            canonical_id(url),
        ),
        well_formed(with_volume(e, canonical_id(url))),
{
    crate::keys::lemma_canonical_id_is_canonical(url);
    lemma_with_volume_well_formed(e, canonical_id(url));
}

/// With exactly one backend registered, placement picks it on every draw.
pub proof fn lemma_single_backend_placement(e: Seq<(Seq<char>, u32)>, draw: u32)
    requires
        e.len() == 1,
    ensures
        placement(e, draw) == 0,
{
}

/// The number of times `id` occurs in `s`.
pub open spec fn occurrences(s: Seq<Seq<char>>, id: Seq<char>) -> nat
    decreases s.len(),
{
    if s.len() == 0 {
        0
    } else {
        occurrences(s.drop_last(), id) + if s.last() == id {
            1nat
        } else {
            0nat
        }
    }
}

/// `e` after one increment for each id of `ids`, in order.
pub open spec fn bumped_all(e: Seq<(Seq<char>, u32)>, ids: Seq<Seq<char>>) -> Seq<
    (Seq<char>, u32),
>
    decreases ids.len(),
{
    if ids.len() == 0 {
        e
    } else {
        bumped(bumped_all(e, ids.drop_last()), ids.last())
    }
}

/// `e` after one decrement for each id of `ids`, in order.
pub open spec fn dropped_all(e: Seq<(Seq<char>, u32)>, ids: Seq<Seq<char>>) -> Seq<
    (Seq<char>, u32),
>
    decreases ids.len(),
{
    if ids.len() == 0 {
        e
    } else {
        dropped(dropped_all(e, ids.drop_last()), ids.last())
    }
}

/// The number of entries of `e` with id `id`.
spec fn id_count(e: Seq<(Seq<char>, u32)>, id: Seq<char>) -> nat
    decreases e.len(),
{
    if e.len() == 0 {
        0
    } else {
        id_count(e.drop_last(), id) + if e.last().0 == id {
            1nat
        } else {
            0nat
        }
    }
}

/// The occurrences in `s` of the ids of `e`, summed over the entries of `e`.
spec fn occurrence_sum(e: Seq<(Seq<char>, u32)>, s: Seq<Seq<char>>) -> nat
    decreases e.len(),
{
    if e.len() == 0 {
        0
    } else {
        occurrence_sum(e.drop_last(), s) + occurrences(s, e.last().0)
    }
}

proof fn lemma_occurrences_bound(s: Seq<Seq<char>>, id: Seq<char>)
    ensures
        occurrences(s, id) <= s.len(),
    decreases s.len(),
{
    if s.len() > 0 {
        lemma_occurrences_bound(s.drop_last(), id);
    }
}

proof fn lemma_occurrences_member(s: Seq<Seq<char>>, k: int)
    requires
        0 <= k < s.len(),
    ensures
        occurrences(s, s[k]) >= 1,
    decreases s.len(),
{
    if k < s.len() - 1 {
        assert(s.drop_last()[k] == s[k]);
        lemma_occurrences_member(s.drop_last(), k);
    }
}

proof fn lemma_occurrences_witness(s: Seq<Seq<char>>, id: Seq<char>)
    requires
        occurrences(s, id) >= 1,
    ensures
        exists|k: int| 0 <= k < s.len() && s[k] == id,
    decreases s.len(),
{
    if s.last() != id {
        lemma_occurrences_witness(s.drop_last(), id);
        let k = choose|k: int| 0 <= k < s.len() - 1 && s.drop_last()[k] == id;
        assert(s[k] == id);
    } else {
        assert(s[s.len() - 1] == id);
    }
}

/// Increments without saturation add to each counter the occurrences of its id.
proof fn lemma_bumped_all(e: Seq<(Seq<char>, u32)>, ids: Seq<Seq<char>>)
    requires
        forall|i: int| 0 <= i < e.len() ==> #[trigger] e[i].1 + ids.len() <= u32::MAX,
    ensures
        bumped_all(e, ids).len() == e.len(),
        forall|i: int|
            0 <= i < e.len() ==> #[trigger] bumped_all(e, ids)[i] == (
                e[i].0,
                (e[i].1 + occurrences(ids, e[i].0)) as u32,
            ),
    decreases ids.len(),
{
    if ids.len() > 0 {
        let dl = ids.drop_last();
        lemma_bumped_all(e, dl);
        let f = bumped_all(e, dl);
        assert forall|i: int| 0 <= i < e.len() implies #[trigger] bumped_all(e, ids)[i] == (
            e[i].0,
            (e[i].1 + occurrences(ids, e[i].0)) as u32,
        ) by {
            lemma_occurrences_bound(dl, e[i].0);
            assert(f[i] == (e[i].0, (e[i].1 + occurrences(dl, e[i].0)) as u32));
        }
    }
}

/// Decrements that never meet a zero counter take from each counter the
/// occurrences of its id.
proof fn lemma_dropped_all(f: Seq<(Seq<char>, u32)>, ids: Seq<Seq<char>>)
    requires
        forall|i: int| 0 <= i < f.len() ==> occurrences(ids, f[i].0) <= #[trigger] f[i].1,
    ensures
        dropped_all(f, ids).len() == f.len(),
        forall|i: int|
            0 <= i < f.len() ==> #[trigger] dropped_all(f, ids)[i] == (
                f[i].0,
                (f[i].1 - occurrences(ids, f[i].0)) as u32,
            ),
    decreases ids.len(),
{
    if ids.len() > 0 {
        let dl = ids.drop_last();
        lemma_dropped_all(f, dl);
        let g = dropped_all(f, dl);
        assert forall|i: int| 0 <= i < f.len() implies #[trigger] dropped_all(f, ids)[i] == (
            f[i].0,
            (f[i].1 - occurrences(ids, f[i].0)) as u32,
        ) by {
            assert(g[i] == (f[i].0, (f[i].1 - occurrences(dl, f[i].0)) as u32));
        }
    }
}

/// The total of entries whose counters moved by the occurrences of their ids.
proof fn lemma_total_shift(
    e: Seq<(Seq<char>, u32)>,
    g: Seq<(Seq<char>, u32)>,
    added: Seq<Seq<char>>,
    taken: Seq<Seq<char>>,
)
    requires
        g.len() == e.len(),
        forall|i: int|
            0 <= i < e.len() ==> #[trigger] g[i].0 == e[i].0 && g[i].1 + occurrences(taken, e[i].0)
                == e[i].1 + occurrences(added, e[i].0),
    ensures
        total(g) + occurrence_sum(e, taken) == total(e) + occurrence_sum(e, added),
    decreases e.len(),
{
    if e.len() > 0 {
        let n = e.len() - 1;
        assert forall|i: int| 0 <= i < n implies #[trigger] g.drop_last()[i].0
            == e.drop_last()[i].0 && g.drop_last()[i].1 + occurrences(taken, e.drop_last()[i].0)
            == e.drop_last()[i].1 + occurrences(added, e.drop_last()[i].0) by {
            assert(g[i].0 == e[i].0);
        }
        lemma_total_shift(e.drop_last(), g.drop_last(), added, taken);
        assert(g[n].0 == e[n].0);
    }
}

proof fn lemma_id_count_absent(e: Seq<(Seq<char>, u32)>, id: Seq<char>)
    requires
        !has_id(e, id),
    ensures
        id_count(e, id) == 0,
    decreases e.len(),
{
    if e.len() > 0 {
        let dl = e.drop_last();
        assert(!has_id(dl, id)) by {
            if has_id(dl, id) {
                let i = choose|i: int| 0 <= i < dl.len() && dl[i].0 == id;
                assert(e[i].0 == id);
            }
        }
        assert(e[e.len() - 1].0 != id);
        lemma_id_count_absent(dl, id);
    }
}

proof fn lemma_id_count_unique(e: Seq<(Seq<char>, u32)>, id: Seq<char>)
    requires
        unique_ids(e),
        has_id(e, id),
    ensures
        id_count(e, id) == 1,
    decreases e.len(),
{
    let dl = e.drop_last();
    let last = e.len() - 1;
    if e[last].0 == id {
        assert(!has_id(dl, id)) by {
            if has_id(dl, id) {
                let i = choose|i: int| 0 <= i < dl.len() && dl[i].0 == id;
                assert(e[i].0 == e[last].0);
            }
        }
        lemma_id_count_absent(dl, id);
    } else {
        assert(has_id(dl, id)) by {
            let i = choose|i: int| 0 <= i < e.len() && e[i].0 == id;
            assert(i != last);
            assert(dl[i].0 == id);
        }
        assert(unique_ids(dl)) by {
            assert forall|i: int, j: int|
                0 <= i < dl.len() && 0 <= j < dl.len() && #[trigger] dl[i].0 == #[trigger] dl[j].0
                implies i == j by {
                assert(e[i].0 == e[j].0);
            }
        }
        lemma_id_count_unique(dl, id);
    }
}

proof fn lemma_occurrence_sum_step(e: Seq<(Seq<char>, u32)>, s: Seq<Seq<char>>)
    requires
        s.len() > 0,
    ensures
        occurrence_sum(e, s) == occurrence_sum(e, s.drop_last()) + id_count(e, s.last()),
    decreases e.len(),
{
    if e.len() > 0 {
        lemma_occurrence_sum_step(e.drop_last(), s);
    }
}

proof fn lemma_occurrence_sum_empty(e: Seq<(Seq<char>, u32)>, s: Seq<Seq<char>>)
    requires
        s.len() == 0,
    ensures
        occurrence_sum(e, s) == 0,
    decreases e.len(),
{
    if e.len() > 0 {
        lemma_occurrence_sum_empty(e.drop_last(), s);
    }
}

/// Over unique ids, the occurrences of registered ids add up to the length.
proof fn lemma_occurrence_sum_registered(e: Seq<(Seq<char>, u32)>, s: Seq<Seq<char>>)
    requires
        unique_ids(e),
        forall|k: int| 0 <= k < s.len() ==> has_id(e, #[trigger] s[k]),
    ensures
        occurrence_sum(e, s) == s.len(),
    decreases s.len(),
{
    if s.len() > 0 {
        let dl = s.drop_last();
        assert forall|k: int| 0 <= k < dl.len() implies has_id(e, #[trigger] dl[k]) by {
            assert(dl[k] == s[k]);
        }
        lemma_occurrence_sum_registered(e, dl);
        lemma_occurrence_sum_step(e, s);
        assert(has_id(e, s[s.len() - 1]));
        lemma_id_count_unique(e, s.last());
    } else {
        lemma_occurrence_sum_empty(e, s);
    }
}

/// Counter accounting: from a well-formed registry, one increment for the
/// backend of each of `N` writes (`placed`) followed by one decrement for the
/// backend of each of `M` deletes of some of the written keys (`removed`, so
/// no backend occurs in it more often than in `placed`) moves the sum of the
/// counters by exactly `N - M`, as long as no counter reaches its maximum.
pub proof fn lemma_counter_accounting(
    e: Seq<(Seq<char>, u32)>,
    placed: Seq<Seq<char>>,
    removed: Seq<Seq<char>>,
)
    requires
        well_formed(e),
        forall|k: int| 0 <= k < placed.len() ==> has_id(e, #[trigger] placed[k]),
        forall|i: int| 0 <= i < e.len() ==> #[trigger] e[i].1 + placed.len() <= u32::MAX,
        forall|id: Seq<char>| #[trigger] occurrences(removed, id) <= occurrences(placed, id),
    ensures
        total(dropped_all(bumped_all(e, placed), removed)) + removed.len() == total(e)
            + placed.len(),
{
    lemma_bumped_all(e, placed);
    let f = bumped_all(e, placed);
    assert forall|i: int| 0 <= i < f.len() implies occurrences(removed, f[i].0)
        <= #[trigger] f[i].1 by {
        lemma_occurrences_bound(placed, e[i].0);
        assert(f[i] == (e[i].0, (e[i].1 + occurrences(placed, e[i].0)) as u32));
        assert(occurrences(removed, e[i].0) <= occurrences(placed, e[i].0));
    }
    lemma_dropped_all(f, removed);
    let g = dropped_all(f, removed);
    assert forall|i: int| 0 <= i < e.len() implies #[trigger] g[i].0 == e[i].0 && g[i].1
        + occurrences(removed, e[i].0) == e[i].1 + occurrences(placed, e[i].0) by {
        lemma_occurrences_bound(placed, e[i].0);
        assert(f[i] == (e[i].0, (e[i].1 + occurrences(placed, e[i].0)) as u32));
        assert(occurrences(removed, e[i].0) <= occurrences(placed, e[i].0));
        assert(g[i] == (f[i].0, (f[i].1 - occurrences(removed, f[i].0)) as u32));
    }
    lemma_total_shift(e, g, placed, removed);
    lemma_occurrence_sum_registered(e, placed);
    assert forall|k: int| 0 <= k < removed.len() implies has_id(e, #[trigger] removed[k]) by {
        lemma_occurrences_member(removed, k);
        assert(occurrences(removed, removed[k]) <= occurrences(placed, removed[k]));
        lemma_occurrences_witness(placed, removed[k]);
        let j = choose|j: int| 0 <= j < placed.len() && placed[j] == removed[k];
        assert(has_id(e, placed[j]));
    }
    lemma_occurrence_sum_registered(e, removed);
}

/// The backend registry: ids in order of registration, each with its counter.
pub struct Registry {
    ids: Vec<String>,
    counts: Vec<u32>,
}

impl View for Registry {
    type V = Seq<(Seq<char>, u32)>;

    closed spec fn view(&self) -> Seq<(Seq<char>, u32)> {
        Seq::new(self.ids@.len(), |i: int| (self.ids@[i]@, self.counts@[i]))
    }
}

impl Registry {
    /// The two columns have one row per backend.
    pub closed spec fn shape_ok(&self) -> bool {
        self.ids@.len() == self.counts@.len()
    }

    /// The registry's invariant.
    pub open spec fn wf(&self) -> bool {
        self.shape_ok() && well_formed(self@)
    }

    /// An empty registry.
    pub fn new() -> (r: Registry)
        ensures
            r.wf(),
            r@ == Seq::<(Seq<char>, u32)>::empty(),
    {
        let r = Registry { ids: Vec::new(), counts: Vec::new() };
        assert(r@ =~= Seq::<(Seq<char>, u32)>::empty());
        r
    }

    /// The registry of `urls`, each added in turn in canonical form.
    pub fn from_urls(urls: &Vec<String>) -> (r: Registry)
        ensures
            r.wf(),
            r@ == registered(urls@.map_values(|s: String| s@)),
    {
        let ghost views = urls@.map_values(|s: String| s@);
        let mut r = Registry::new();
        let mut i: usize = 0;
        while i < urls.len()
            invariant
                i <= urls@.len(),
                views == urls@.map_values(|s: String| s@),
                r.wf(),
                r@ == registered(views.take(i as int)),
            decreases urls@.len() - i,
        {
            assert(views.take(i + 1).drop_last() =~= views.take(i as int));
            r.add(urls[i].as_str());
            i = i + 1;
        }
        assert(views.take(i as int) =~= views);
        r
    }

    /// The position of `id`, if it is registered.
    fn find(&self, id: &String) -> (r: Option<usize>)
        requires
            self.wf(),
        ensures
            match r {
                Some(i) => i < self@.len() && self@[i as int].0 == id@,
                None => !has_id(self@, id@),
            },
    {
        let mut i: usize = 0;
        while i < self.ids.len()
            invariant
                self.wf(),
                i <= self@.len(),
                forall|j: int| 0 <= j < i ==> self@[j].0 != id@,
            decreases self@.len() - i,
        {
            if self.ids[i] == *id {
                return Some(i);
            }
            i = i + 1;
        }
        None
    }

    /// Adds `url` in canonical form with count zero, unless it is there
    /// already; returns whether it was added.
    pub fn add(&mut self, url: &str) -> (added: bool)
        requires
            old(self).wf(),
        ensures
            final(self).wf(),
            added == !has_id(old(self)@, canonical_id(url@)),
            final(self)@ == with_volume(old(self)@, canonical_id(url@)),
    {
        let id = canonical_url(url);
        match self.find(&id) {
            Some(_) => false,
            None => {
                let ghost before = self@;
                self.ids.push(id);
                self.counts.push(0);
                assert(self@ =~= before.push((canonical_id(url@), 0u32)));
                true
            },
        }
    }

    /// Counts one more key on backend `id`; does nothing when `id` is not
    /// registered.
    pub fn increment(&mut self, id: &str)
        requires
            old(self).wf(),
        ensures
            final(self).wf(),
            final(self)@ == bumped(old(self)@, id@),
    {
        let key = id.to_owned();
        let ghost before = self@;
        match self.find(&key) {
            Some(i) => {
                let c = self.counts[i];
                let n = if c < u32::MAX { c + 1 } else { c };
                self.counts.set(i, n);
                assert(self@ =~= bumped(before, id@));
            },
            None => {
                assert(self@ =~= bumped(before, id@));
            },
        }
    }

    /// Counts one key less on backend `id`; does nothing when `id` is not
    /// registered.
    pub fn decrement(&mut self, id: &str)
        requires
            old(self).wf(),
        ensures
            final(self).wf(),
            final(self)@ == dropped(old(self)@, id@),
    {
        let key = id.to_owned();
        let ghost before = self@;
        match self.find(&key) {
            Some(i) => {
                let c = self.counts[i];
                let n = if c > 0 { c - 1 } else { 0 };
                self.counts.set(i, n);
                assert(self@ =~= dropped(before, id@));
            },
            None => {
                assert(self@ =~= dropped(before, id@));
            },
        }
    }

    /// Picks the backend for a new key on draw `draw`; `None` when no backend
    /// is registered.
    pub fn pick(&self, draw: u32) -> (r: Option<String>)
        requires
            self.wf(),
        ensures
            r is None <==> self@.len() == 0,
            r matches Some(id) ==> id@ == self@[placement(self@, draw)].0,
    {
        let n = self.ids.len();
        if n == 0 {
            return None;
        }
        proof {
            lemma_placement_in_range(self@, draw, 0);
        }
        let limit: u128 = DRAW_SCALE as u128;
        let mut k: usize = 0;
        let mut cum: u64 = 0;
        while k + 1 < n
            invariant
                self.wf(),
                n == self@.len(),
                k < n,
                cum == prefix_weight(self@, k as nat),
                cum <= DRAW_SCALE,
                limit == DRAW_SCALE,
                pick_from(self@, draw, k as int) == placement(self@, draw),
            decreases n - k,
        {
            let c = self.counts[k];
            let w: u64 = if c == 0 { 1 } else { c as u64 };
            cum = cum + w;
            assert(cum == prefix_weight(self@, (k + 1) as nat));
            assert((draw as int) * (cum as int) <= 0xffff_ffff * 0x2_0000_0000) by (nonlinear_arith)
                requires
                    draw <= 0xffff_ffffu32,
                    cum <= 0x2_0000_0000u64,
            ;
            let product: u128 = (draw as u128) * (cum as u128);
            assert(product == draw * prefix_weight(self@, (k + 1) as nat));
            if product <= limit {
                assert(accepts(self@, k as int, draw));
                return Some(self.ids[k].clone());
            }
            if cum > DRAW_SCALE {
                proof {
                    if draw == 0 {
                        assert(draw * cum == 0) by (nonlinear_arith)
                            requires
                                draw == 0,
                        ;
                    }
                    lemma_pick_past_scale(self@, draw, k as int);
                }
                return Some(self.ids[n - 1].clone());
            }
            k = k + 1;
        }
        Some(self.ids[n - 1].clone())
    }

    /// The number of registered backends.
    pub fn len(&self) -> (n: usize)
        requires
            self.wf(),
        ensures
            n == self@.len(),
    {
        self.ids.len()
    }

    /// Whether no backend is registered.
    pub fn is_empty(&self) -> (b: bool)
        requires
            self.wf(),
        ensures
            b == (self@.len() == 0),
    {
        self.ids.len() == 0
    }

    /// The counter of backend `id`, if it is registered.
    pub fn count_of(&self, id: &str) -> (r: Option<u32>)
        requires
            self.wf(),
        ensures
            r == count_in(self@, id@),
    {
        let key = id.to_owned();
        match self.find(&key) {
            Some(i) => Some(self.counts[i]),
            None => None,
        }
    }

    /// A copy of the registry.
    pub fn copy(&self) -> (r: Registry)
        requires
            self.wf(),
        ensures
            r.wf(),
            r@ == self@,
    {
        let mut r = Registry::new();
        let mut i: usize = 0;
        while i < self.ids.len()
            invariant
                self.wf(),
                i <= self@.len(),
                r.shape_ok(),
                r@ == self@.take(i as int),
            decreases self@.len() - i,
        {
            let ghost before = r@;
            r.ids.push(self.ids[i].clone());
            r.counts.push(self.counts[i]);
            assert(r@ =~= before.push(self@[i as int]));
            assert(self@.take(i + 1) =~= self@.take(i as int).push(self@[i as int]));
            i = i + 1;
        }
        assert(self@.take(i as int) =~= self@);
        assert(r@ =~= self@);
        r
    }
}

} // verus!
