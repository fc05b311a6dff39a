//! The list's state: which item is selected, how far it is scrolled, and in
//! which order the items stand.
use vstd::prelude::*;
use crate::item::CatalogItem;
use crate::text::{lex_le, lemma_lex_le_reflexive, lemma_lex_le_total, lemma_lex_le_transitive, lower_of, lowercase, str_lex_le};

verus! {

/// The order of the list.
#[derive(Clone, Copy, Debug, PartialEq, Eq, Structural)]
pub enum SortMode {
    /// By label, ignoring case.
    ByName,
    /// Most recently modified first.
    ByLastModified,
}

/// The key by which the list is ordered by name.
pub open spec fn name_key(item: CatalogItem) -> Seq<char> {
    lower_of(item.label())
}

/// `a` may stand before `b` in a list ordered by `mode`.
pub open spec fn in_order(mode: SortMode, a: CatalogItem, b: CatalogItem) -> bool {
    match mode {
        SortMode::ByName => lex_le(name_key(a), name_key(b)),
        SortMode::ByLastModified => a.last_modified >= b.last_modified,
    }
}

/// `a` and `b` rank equal under `mode`.
pub open spec fn same_rank(mode: SortMode, a: CatalogItem, b: CatalogItem) -> bool {
    match mode {
        SortMode::ByName => name_key(a) == name_key(b),
        SortMode::ByLastModified => a.last_modified == b.last_modified,
    }
}

/// `p` maps each position of `new` to the position in `old` the same item came
/// from; `new` is ordered by `mode`, and items of equal rank keep their order.
pub open spec fn stable_sort_by(mode: SortMode, p: Seq<int>, old: Seq<CatalogItem>, new: Seq<CatalogItem>) -> bool {
    &&& new.len() == old.len()
    &&& p.len() == old.len()
    &&& forall|k: int| 0 <= k < new.len() ==> 0 <= #[trigger] p[k] < old.len() && new[k] == old[p[k]]
    &&& forall|a: int, b: int| 0 <= a < b < new.len() ==> #[trigger] p[a] != #[trigger] p[b]
    &&& forall|a: int, b: int| 0 <= a < b < new.len() ==> in_order(mode, #[trigger] new[a], #[trigger] new[b])
    &&& forall|a: int, b: int| 0 <= a < b < new.len() && same_rank(mode, #[trigger] new[a], #[trigger] new[b]) ==> p[a] < p[b]
}

pub proof fn lemma_in_order_total(mode: SortMode, a: CatalogItem, b: CatalogItem)
    ensures
        in_order(mode, a, b) || in_order(mode, b, a),
        same_rank(mode, a, b) ==> in_order(mode, a, b) && in_order(mode, b, a),
{
    lemma_lex_le_total(name_key(a), name_key(b));
    lemma_lex_le_reflexive(name_key(a));
}

pub proof fn lemma_in_order_transitive(mode: SortMode, a: CatalogItem, b: CatalogItem, c: CatalogItem)
    requires
        in_order(mode, a, b),
        in_order(mode, b, c),
    ensures
        in_order(mode, a, c),
{
    if mode == SortMode::ByName {
        lemma_lex_le_transitive(name_key(a), name_key(b), name_key(c));
    }
}

/// What the ordering reads of an item.
struct SortKey {
    name: String,
    stamp: u64,
}

impl SortKey {
    spec fn describes(&self, mode: SortMode, item: CatalogItem) -> bool {
        &&& self.stamp == item.last_modified
        &&& mode == SortMode::ByName ==> self.name@ == name_key(item)
    }
}

fn sort_key(mode: SortMode, item: &CatalogItem) -> (r: SortKey)
    ensures
        r.describes(mode, *item),
{
    let name = match mode {
        SortMode::ByName => lowercase(item.display_label().as_str()),
        SortMode::ByLastModified => String::new(),
    };
    SortKey { name, stamp: item.last_modified }
}

fn key_in_order(mode: SortMode, a: &SortKey, b: &SortKey, Ghost(ia): Ghost<CatalogItem>, Ghost(ib): Ghost<CatalogItem>) -> (r: bool)
    requires
        a.describes(mode, ia),
        b.describes(mode, ib),
    ensures
        r == in_order(mode, ia, ib),
{
    match mode {
        SortMode::ByName => str_lex_le(a.name.as_str(), b.name.as_str()),
        SortMode::ByLastModified => a.stamp >= b.stamp,
    }
}

/// Orders `items` by `mode`, stably, and tells where the item at `sel` went.
fn stable_sort(mode: SortMode, input: Vec<CatalogItem>, sel: usize) -> (r: (Vec<CatalogItem>, usize))
    requires
        sel < input@.len() || input@.len() == 0,
    ensures
        exists|p: Seq<int>| #[trigger] stable_sort_by(mode, p, input@, r.0@)
            && (input@.len() > 0 ==> 0 <= r.1 < input@.len() && p[r.1 as int] == sel),
{
    let ghost old_items = input@;
    let n = input.len();
    let mut items = input;
    let mut keys: Vec<SortKey> = Vec::new();
    let mut k: usize = 0;
    while k < n
        invariant
            k <= n,
            n == items@.len(),
            keys@.len() == k,
            forall|m: int| 0 <= m < k ==> (#[trigger] keys@[m]).describes(mode, items@[m]),
        decreases n - k,
    {
        keys.push(sort_key(mode, &items[k]));
        k = k + 1;
    }
    let ghost mut orig: Seq<int> = Seq::new(n as nat, |m: int| m);
    let mut c: usize = sel;
    let mut i: usize = 0;
    while i < n
        invariant
            i <= n,
            n == old_items.len(),
            items@.len() == n,
            keys@.len() == n,
            forall|m: int| 0 <= m < n ==> (#[trigger] keys@[m]).describes(mode, items@[m]),
            orig.len() == n,
            forall|m: int| 0 <= m < n ==> 0 <= #[trigger] orig[m] < n && items@[m] == old_items[orig[m]],
            forall|a: int, b: int| 0 <= a < b < n ==> #[trigger] orig[a] != #[trigger] orig[b],
            forall|m: int| i <= m < n ==> #[trigger] orig[m] == m,
            forall|m: int| 0 <= m < i ==> #[trigger] orig[m] < i,
            forall|a: int, b: int| 0 <= a < b < i ==> in_order(mode, #[trigger] items@[a], #[trigger] items@[b]),
            forall|a: int, b: int| 0 <= a < b < i && same_rank(mode, #[trigger] items@[a], #[trigger] items@[b]) ==> orig[a] < orig[b],
            n > 0 ==> c < n && orig[c as int] == sel,
        decreases n - i,
    {
        let ghost before = items@;
        let ghost okeys = keys@;
        let x = items.remove(i);
        let kx = keys.remove(i);
        assert forall|m: int| 0 <= m < i implies (#[trigger] keys@[m]).describes(mode, items@[m]) by {
            assert(keys@[m] == okeys[m]);
            assert(items@[m] == before[m]);
        }
        let mut j: usize = i;
        while j > 0 && !key_in_order(mode, &keys[j - 1], &kx, Ghost(items@[j - 1]), Ghost(x))
            invariant
                j <= i,
                i < n,
                before.len() == n,
                okeys.len() == n,
                items@ == before.remove(i as int),
                keys@ == okeys.remove(i as int),
                forall|m: int| 0 <= m < i ==> (#[trigger] keys@[m]).describes(mode, items@[m]),
                forall|m: int| 0 <= m < n ==> (#[trigger] okeys[m]).describes(mode, before[m]),
                kx.describes(mode, x),
                x == before[i as int],
                forall|m: int| j <= m < i ==> !in_order(mode, #[trigger] before[m], x),
            decreases j,
        {
            j = j - 1;
        }
        items.insert(j, x);
        keys.insert(j, kx);
        let ghost old_orig = orig;
        proof {
            orig = orig.remove(i as int).insert(j as int, i as int);
            assert forall|a: int, b: int| 0 <= a < b < i + 1 implies in_order(mode, #[trigger] items@[a], #[trigger] items@[b]) by {
                if b < j {
                } else if b == j {
                    if a < j - 1 {
                        lemma_in_order_transitive(mode, before[a], before[j - 1], x);
                    }
                } else if a < j {
                } else if a == j {
                    lemma_in_order_total(mode, before[b - 1], x);
                } else {
                }
            }
            assert forall|a: int, b: int| 0 <= a < b < i + 1 && same_rank(mode, #[trigger] items@[a], #[trigger] items@[b]) implies orig[a] < orig[b] by {
                if a == j && b > j {
                    lemma_in_order_total(mode, x, before[b - 1]);
                    lemma_in_order_total(mode, before[b - 1], x);
                    assert(same_rank(mode, before[b - 1], x) == same_rank(mode, x, before[b - 1]));
                }
            }
            assert forall|a: int, b: int| 0 <= a < b < n implies #[trigger] orig[a] != #[trigger] orig[b] by {
                if a == j {
                    assert(old_orig[i as int] == i);
                } else if b == j {
                    assert(old_orig[i as int] == i);
                }
            }
        }
        if c == i {
            c = j;
        } else if j <= c && c < i {
            c = c + 1;
        }
        i = i + 1;
    }
    assert(stable_sort_by(mode, orig, old_items, items@));
    assert(n > 0 ==> 0 <= c < n && orig[c as int] == sel);
    let r = (items, c);
    assert(stable_sort_by(mode, orig, old_items, r.0@) && (old_items.len() > 0 ==> 0 <= r.1 < old_items.len() && orig[r.1 as int] == sel));
    r
}

/// A list of `n` distinct positions below `n` holds each of them.
pub proof fn lemma_permutation_onto(p: Seq<int>, n: int, k: int)
    requires
        p.len() == n,
        0 <= k < n,
        forall|m: int| 0 <= m < n ==> 0 <= #[trigger] p[m] < n,
        forall|a: int, b: int| 0 <= a < b < n ==> #[trigger] p[a] != #[trigger] p[b],
    ensures
        exists|m: int| 0 <= m < n && p[m] == k,
{
    if !(exists|m: int| 0 <= m < n && p[m] == k) {
        let f = |m: int| p[m];
        let dom = vstd::set_lib::set_int_range(0, n);
        let rest = vstd::set_lib::set_int_range(0, n).remove(k);
        let image = dom.map(f);
        vstd::set_lib::lemma_int_range(0, n);
        assert(vstd::relations::injective_on(f, dom)) by {
            assert forall|x1: int, x2: int| dom.contains(x1) && dom.contains(x2) && #[trigger] f(x1) == #[trigger] f(x2) implies x1 == x2 by {
                if x1 < x2 {
                    assert(p[x1] != p[x2]);
                } else if x2 < x1 {
                    assert(p[x2] != p[x1]);
                }
            }
        }
        vstd::set_lib::lemma_map_size(dom, image, f);
        assert forall|v: int| image.contains(v) implies rest.contains(v) by {
            let m = choose|m: int| dom.contains(m) && f(m) == v;
        }
        vstd::set_lib::lemma_len_subset(image, rest);
        assert(false);
    }
}

/// The position after `c` in a list of `n`, back to the first after the last.
pub open spec fn next_index(c: int, n: int) -> int {
    if c + 1 >= n { 0 } else { c + 1 }
}

/// The position before `c` in a list of `n`, round to the last before the first.
pub open spec fn previous_index(c: int, n: int) -> int {
    if c == 0 { n - 1 } else { c - 1 }
}

/// `next_index` taken `k` times.
pub open spec fn advance(c: int, n: int, k: nat) -> int
    decreases k,
{
    if k == 0 { c } else { next_index(advance(c, n, (k - 1) as nat), n) }
}

/// Moving down then up, or up then down, brings the cursor back where it stood.
pub proof fn lemma_next_previous_inverse(c: int, n: int)
    requires
        0 <= c < n,
    ensures
        previous_index(next_index(c, n), n) == c,
        next_index(previous_index(c, n), n) == c,
{
}

proof fn lemma_advance_wraps(c: int, n: int, k: nat)
    requires
        0 <= c < n,
        k <= n,
    ensures
        advance(c, n, k) == if c + k < n { c + k } else { c + k - n },
    decreases k,
{
    if k > 0 {
        lemma_advance_wraps(c, n, (k - 1) as nat);
    }
}

/// Moving down as many times as there are items brings the cursor back where it stood.
pub proof fn lemma_full_cycle(c: int, n: int)
    requires
        0 <= c < n,
    ensures
        advance(c, n, n as nat) == c,
{
    lemma_advance_wraps(c, n, n as nat);
}

/// The offset kept when the cursor moves: lowered to the cursor where it stood below it.
pub open spec fn clamped_offset(offset: usize, cursor: Option<usize>) -> usize {
    match cursor {
        Some(c) => if c < offset { c } else { offset },
        None => 0,
    }
}

/// The least movement of `offset` that shows `cursor` in a window of `height` rows.
pub open spec fn synced_offset(offset: usize, cursor: Option<usize>, height: usize) -> usize {
    match cursor {
        Some(c) => if c < offset {
            c
        } else if height == 0 {
            c
        } else if c >= offset + height {
            (c + 1 - height) as usize
        } else {
            offset
        },
        None => 0,
    }
}

/// The first position in `items` of an item with path `path`.
pub open spec fn first_with_path(items: Seq<CatalogItem>, path: Seq<char>, i: int) -> bool {
    &&& 0 <= i < items.len()
    &&& items[i].path@ == path
    &&& forall|k: int| 0 <= k < i ==> (#[trigger] items[k]).path@ != path
}

/// The first position of an item with path `path`.
pub fn position_of_path(items: &Vec<CatalogItem>, path: &String) -> (r: Option<usize>)
    ensures
        match r {
            Some(i) => first_with_path(items@, path@, i as int),
            None => forall|k: int| 0 <= k < items@.len() ==> (#[trigger] items@[k]).path@ != path@,
        },
{
    let mut i: usize = 0;
    while i < items.len()
        invariant
            i <= items@.len(),
            forall|k: int| 0 <= k < i ==> (#[trigger] items@[k]).path@ != path@,
        decreases items@.len() - i,
    {
        if items[i].path == *path {
            return Some(i);
        }
        i = i + 1;
    }
    None
}

/// The list, its selected item and its scroll position.
pub struct SelectionState {
    pub items: Vec<CatalogItem>,
    pub cursor: Option<usize>,
    pub scroll_offset: usize,
    pub sort_mode: SortMode,
}

impl SelectionState {
    /// The cursor is set exactly when there are items, and then points at one;
    /// the scroll offset never passes the cursor.
    pub open spec fn wf(&self) -> bool {
        &&& (self.cursor is None <==> self.items@.len() == 0)
        &&& self.cursor is Some ==> self.cursor->0 < self.items@.len()
        &&& self.scroll_offset == clamped_offset(self.scroll_offset, self.cursor)
    }

    /// A state over `items` ordered by `mode`, with the first item selected.
    pub fn new(items: Vec<CatalogItem>, mode: SortMode) -> (r: SelectionState)
        ensures
            r.wf(),
            exists|p: Seq<int>| #[trigger] stable_sort_by(mode, p, items@, r.items@),
            r.cursor == (if items@.len() > 0 { Some(0usize) } else { None }),
            r.scroll_offset == 0,
            r.sort_mode == mode,
    {
        let n = items.len();
        let ghost input = items@;
        let sorted = stable_sort(mode, items, 0);
        let ghost out = sorted.0@;
        let r = SelectionState { items: sorted.0, cursor: if n > 0 { Some(0) } else { None }, scroll_offset: 0, sort_mode: mode };
        proof {
            let p = choose|p: Seq<int>| #[trigger] stable_sort_by(mode, p, input, out)
                && (input.len() > 0 ==> 0 <= sorted.1 < input.len() && p[sorted.1 as int] == 0);
            assert(r.items@ == out);
            assert(stable_sort_by(mode, p, input, r.items@));
        }
        r
    }

    /// Moves the cursor one item down, from the last back to the first.
    pub fn select_next(&mut self)
        requires
            old(self).wf(),
        ensures
            final(self).wf(),
            final(self).items == old(self).items,
            final(self).sort_mode == old(self).sort_mode,
            final(self).cursor == match old(self).cursor {
                Some(c) => Some(next_index(c as int, old(self).items@.len() as int) as usize),
                None => None,
            },
            final(self).scroll_offset == clamped_offset(old(self).scroll_offset, final(self).cursor),
    {
        if let Some(c) = self.cursor {
            let next = if c >= self.items.len() - 1 { 0 } else { c + 1 };
            self.cursor = Some(next);
            if next < self.scroll_offset {
                self.scroll_offset = next;
            }
        }
    }

    /// Moves the cursor one item up, from the first round to the last.
    pub fn select_previous(&mut self)
        requires
            old(self).wf(),
        ensures
            final(self).wf(),
            final(self).items == old(self).items,
            final(self).sort_mode == old(self).sort_mode,
            final(self).cursor == match old(self).cursor {
                Some(c) => Some(previous_index(c as int, old(self).items@.len() as int) as usize),
                None => None,
            },
            final(self).scroll_offset == clamped_offset(old(self).scroll_offset, final(self).cursor),
    {
        if let Some(c) = self.cursor {
            let previous = if c == 0 { self.items.len() - 1 } else { c - 1 };
            self.cursor = Some(previous);
            if previous < self.scroll_offset {
                self.scroll_offset = previous;
            }
        }
    }

    /// Orders the items by `mode`, keeping the same item selected.
    pub fn set_sort_mode(&mut self, mode: SortMode)
        requires
            old(self).wf(),
        ensures
            final(self).wf(),
            final(self).sort_mode == mode,
            final(self).cursor is Some == old(self).cursor is Some,
            exists|p: Seq<int>| #[trigger] stable_sort_by(mode, p, old(self).items@, final(self).items@)
                && (old(self).cursor matches Some(c) ==> p[final(self).cursor->0 as int] == c as int),
            old(self).cursor matches Some(c) ==> final(self).items@[final(self).cursor->0 as int] == old(self).items@[c as int],
            final(self).scroll_offset == clamped_offset(old(self).scroll_offset, final(self).cursor),
    {
        let mut items: Vec<CatalogItem> = Vec::new();
        std::mem::swap(&mut items, &mut self.items);
        let sel: usize = match self.cursor {
            Some(c) => c,
            None => 0,
        };
        let ghost input = items@;
        let res = stable_sort(mode, items, sel);
        let ghost p = choose|p: Seq<int>| #[trigger] stable_sort_by(mode, p, input, res.0@)
            && (input.len() > 0 ==> 0 <= res.1 < input.len() && p[res.1 as int] == sel);
        let c = res.1;
        self.items = res.0;
        self.sort_mode = mode;
        if self.cursor.is_some() {
            self.cursor = Some(c);
            if c < self.scroll_offset {
                self.scroll_offset = c;
            }
        }
        assert(stable_sort_by(mode, p, old(self).items@, self.items@));
    }

    /// Switches between the two orders.
    pub fn toggle_sort(&mut self)
        requires
            old(self).wf(),
        ensures
            final(self).wf(),
            final(self).sort_mode != old(self).sort_mode,
            final(self).cursor is Some == old(self).cursor is Some,
            exists|p: Seq<int>| #[trigger] stable_sort_by(final(self).sort_mode, p, old(self).items@, final(self).items@)
                && (old(self).cursor matches Some(c) ==> p[final(self).cursor->0 as int] == c as int),
            old(self).cursor matches Some(c) ==> final(self).items@[final(self).cursor->0 as int] == old(self).items@[c as int],
            final(self).scroll_offset == clamped_offset(old(self).scroll_offset, final(self).cursor),
    {
        let mode = match self.sort_mode {
            SortMode::ByName => SortMode::ByLastModified,
            SortMode::ByLastModified => SortMode::ByName,
        };
        self.set_sort_mode(mode);
    }

    /// Scrolls as little as needed to show the cursor in a window of `height` rows.
    pub fn scroll_sync(&mut self, height: usize)
        requires
            old(self).wf(),
        ensures
            final(self).wf(),
            final(self).items == old(self).items,
            final(self).cursor == old(self).cursor,
            final(self).sort_mode == old(self).sort_mode,
            final(self).scroll_offset == synced_offset(old(self).scroll_offset, old(self).cursor, height),
            final(self).cursor is Some && height > 0 ==> final(self).scroll_offset <= final(self).cursor->0 < final(self).scroll_offset + height,
    {
        if let Some(c) = self.cursor {
            if c < self.scroll_offset {
                self.scroll_offset = c;
            } else if height == 0 {
                self.scroll_offset = c;
            } else if c - self.scroll_offset >= height {
                self.scroll_offset = c - (height - 1);
            }
        }
    }

    /// Puts a fresh list in place of the items, ordered by the current mode.
    /// The item selected before stays selected where an item of the same path
    /// is in the new list; else the first item is selected.
    pub fn replace_items(&mut self, items: Vec<CatalogItem>)
        requires
            old(self).wf(),
        ensures
            final(self).wf(),
            final(self).sort_mode == old(self).sort_mode,
            exists|p: Seq<int>| #[trigger] stable_sort_by(old(self).sort_mode, p, items@, final(self).items@),
            old(self).cursor is Some && (exists|i: int| 0 <= i < items@.len()
                && (#[trigger] items@[i]).path@ == old(self).items@[old(self).cursor->0 as int].path@)
                ==> first_with_path(final(self).items@, old(self).items@[old(self).cursor->0 as int].path@, final(self).cursor->0 as int),
            !(old(self).cursor is Some && (exists|i: int| 0 <= i < items@.len()
                && (#[trigger] items@[i]).path@ == old(self).items@[old(self).cursor->0 as int].path@))
                ==> final(self).cursor == (if items@.len() > 0 { Some(0usize) } else { None }),
            final(self).scroll_offset == clamped_offset(old(self).scroll_offset, final(self).cursor),
    {
        let mode = self.sort_mode;
        let ghost input = items@;
        let n = items.len();
        let sorted = stable_sort(mode, items, 0);
        let ghost p = choose|p: Seq<int>| #[trigger] stable_sort_by(mode, p, input, sorted.0@)
            && (input.len() > 0 ==> 0 <= sorted.1 < input.len() && p[sorted.1 as int] == 0);
        let ghost out = sorted.0@;
        let mut found: Option<usize> = None;
        if let Some(c) = self.cursor {
            let path = &self.items[c].path;
            found = position_of_path(&sorted.0, path);
            proof {
                if found is None {
                    assert forall|k: int| 0 <= k < input.len() implies (#[trigger] input[k]).path@ != path@ by {
                        lemma_permutation_onto(p, n as int, k);
                        let m = choose|m: int| 0 <= m < n && p[m] == k;
                        assert(out[m] == input[k]);
                    }
                } else {
                    assert(input[p[found->0 as int]] == out[found->0 as int]);
                }
            }
        }
        self.items = sorted.0;
        self.cursor = match found {
            Some(i) => Some(i),
            None => if n > 0 { Some(0) } else { None },
        };
        self.scroll_offset = match self.cursor {
            Some(c) => if c < self.scroll_offset { c } else { self.scroll_offset },
            None => 0,
        };
        assert(stable_sort_by(mode, p, input, self.items@));
    }

    /// The selected item, if any.
    pub fn selected(&self) -> (r: Option<&CatalogItem>)
        requires
            self.wf(),
        ensures
            match self.cursor {
                Some(c) => r == Some(&self.items@[c as int]),
                None => r is None,
            },
    {
        match self.cursor {
            Some(c) => Some(&self.items[c]),
            None => None,
        }
    }
}

} // verus!
