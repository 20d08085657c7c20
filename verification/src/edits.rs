//! The pure edit transforms. Every user action produces a brand-new list
//! state derived from the previous one; nothing is mutated in place. Each
//! transform states exactly what the new state holds, including the
//! documented edge-case policies: deleting an absent id is a no-op, ratings
//! wrap around past their bounds, and moves clamp at the ends of the list.
use vstd::prelude::*;

verus! {

use crate::model::{ListItem, MusicaList, MusicaListV, items_wf};

/// The items that survive deleting `id`, in their original order.
pub open spec fn spec_delete(items: Seq<ListItem>, id: u64) -> Seq<ListItem>
    decreases items.len(),
{
    if items.len() == 0 {
        Seq::empty()
    } else {
        let rest = spec_delete(items.drop_first(), id);
        if items[0].id == id {
            rest
        } else {
            seq![items[0]] + rest
        }
    }
}

/// The items after flipping the viewed mark of the item with `id`.
pub open spec fn spec_toggle_viewed(items: Seq<ListItem>, id: u64) -> Seq<ListItem> {
    Seq::new(
        items.len(),
        |i: int|
            if items[i].id == id {
                ListItem { viewed: !items[i].viewed, ..items[i] }
            } else {
                items[i]
            },
    )
}

/// A rating stepped by `delta`, wrapping: below `0` becomes `10`, above `10`
/// becomes `0`.
pub open spec fn spec_wrap_rating(r: u8, delta: i8) -> u8 {
    let v = r as int + delta as int;
    if v < 0 {
        10
    } else if v > 10 {
        0
    } else {
        v as u8
    }
}

/// The items after stepping the rating of the item with `id` by `delta`.
pub open spec fn spec_update_rating(items: Seq<ListItem>, id: u64, delta: i8) -> Seq<ListItem> {
    Seq::new(
        items.len(),
        |i: int|
            if items[i].id == id {
                ListItem { rating: spec_wrap_rating(items[i].rating, delta), ..items[i] }
            } else {
                items[i]
            },
    )
}

/// The items after pointing the item with `id` at catalog entry
/// `catalog_id`. The reference is not validated: a dangling reference
/// degrades at display time, it is not an error.
pub open spec fn spec_change_catalog(items: Seq<ListItem>, id: u64, catalog_id: u64) -> Seq<
    ListItem,
> {
    Seq::new(
        items.len(),
        |i: int|
            if items[i].id == id {
                ListItem { musical_id: catalog_id, ..items[i] }
            } else {
                items[i]
            },
    )
}

/// Where a move from `pos` by `delta` lands: clamped to the list bounds.
pub open spec fn spec_move_target(pos: int, delta: int, len: int) -> int {
    if pos + delta < 0 {
        0
    } else if pos + delta >= len {
        len - 1
    } else {
        pos + delta
    }
}

/// The items after swapping positions `a` and `b`.
pub open spec fn spec_swap(items: Seq<ListItem>, a: int, b: int) -> Seq<ListItem> {
    items.update(a, items[b]).update(b, items[a])
}

/// The freshly chosen id for an appended item: one past the current length.
/// (Deliberately not globally unique after deletions; the stored policy.)
pub open spec fn spec_new_id(items: Seq<ListItem>) -> u64 {
    (items.len() + 1) as u64
}

impl MusicaList {
    /// Removes the item whose id matches; if no item matches, the list is
    /// unchanged.
    pub fn delete_item(&self, id: u64) -> (r: MusicaList)
        ensures
            r@.version == self@.version,
            r@.author == self@.author,
            r@.items == spec_delete(self@.items, id),
            items_wf(self@.items) ==> items_wf(r@.items),
    {
        let n = self.items.len();
        let mut acc: Vec<ListItem> = Vec::new();
        let mut i: usize = 0;
        while i < n
            invariant
                i <= n,
                n == self.items.len(),
                acc@ == spec_delete(self@.items.take(i as int), id),
            decreases n - i,
        {
            let it = self.items[i];
            proof {
                lemma_delete_push(self@.items.take(i as int), self@.items[i as int], id);
                assert(self@.items.take(i as int).push(self@.items[i as int])
                    =~= self@.items.take(i + 1 as int));
            }
            if it.id != id {
                acc.push(it);
                proof {
                    assert(acc@ =~= spec_delete(self@.items.take(i + 1 as int), id));
                }
            }
            i += 1;
        }
        proof {
            assert(self@.items.take(n as int) =~= self@.items);
            lemma_delete_members(self@.items, id);
        }
        MusicaList { version: self.version, author: self.author.clone(), items: acc }
    }

    /// Flips the viewed mark of the item whose id matches.
    pub fn toggle_viewed(&self, id: u64) -> (r: MusicaList)
        ensures
            r@.version == self@.version,
            r@.author == self@.author,
            r@.items == spec_toggle_viewed(self@.items, id),
            items_wf(self@.items) ==> items_wf(r@.items),
    {
        let n = self.items.len();
        let mut acc: Vec<ListItem> = Vec::new();
        let mut i: usize = 0;
        while i < n
            invariant
                i <= n,
                n == self.items.len(),
                acc@.len() == i,
                forall|j: int| 0 <= j < i ==> acc@[j] == spec_toggle_viewed(self@.items, id)[j],
            decreases n - i,
        {
            let it = self.items[i];
            if it.id == id {
                acc.push(ListItem { viewed: !it.viewed, ..it });
            } else {
                acc.push(it);
            }
            i += 1;
        }
        proof {
            assert(acc@ =~= spec_toggle_viewed(self@.items, id));
            assert forall|j: int|
                0 <= j < self@.items.len() implies crate::model::item_wf(
                spec_toggle_viewed(self@.items, id)[j],
            ) || !items_wf(self@.items) by {
                assert(items_wf(self@.items) ==> crate::model::item_wf(self@.items[j]));
            }
        }
        MusicaList { version: self.version, author: self.author.clone(), items: acc }
    }

    /// Steps the rating of the item whose id matches by `delta`, wrapping at
    /// the bounds: `0` stepped down becomes `10`, `10` stepped up becomes
    /// `0`.
    pub fn update_rating(&self, id: u64, delta: i8) -> (r: MusicaList)
        requires
            delta == -1i8 || delta == 1i8,
            items_wf(self@.items),
        ensures
            r@.version == self@.version,
            r@.author == self@.author,
            r@.items == spec_update_rating(self@.items, id, delta),
            items_wf(r@.items),
    {
        let n = self.items.len();
        let mut acc: Vec<ListItem> = Vec::new();
        let mut i: usize = 0;
        while i < n
            invariant
                i <= n,
                n == self.items.len(),
                delta == -1i8 || delta == 1i8,
                items_wf(self@.items),
                acc@.len() == i,
                forall|j: int|
                    0 <= j < i ==> acc@[j] == spec_update_rating(self@.items, id, delta)[j],
            decreases n - i,
        {
            let it = self.items[i];
            if it.id == id {
                proof {
                    assert(crate::model::item_wf(self@.items[i as int]));
                }
                let new_rating: u8 = if delta < 0 {
                    if it.rating == 0 {
                        10
                    } else {
                        it.rating - 1
                    }
                } else {
                    if it.rating >= 10 {
                        0
                    } else {
                        it.rating + 1
                    }
                };
                acc.push(ListItem { rating: new_rating, ..it });
            } else {
                acc.push(it);
            }
            i += 1;
        }
        proof {
            assert(acc@ =~= spec_update_rating(self@.items, id, delta));
            assert forall|j: int|
                0 <= j < self@.items.len() implies crate::model::item_wf(
                #[trigger] spec_update_rating(self@.items, id, delta)[j],
            ) by {
                assert(crate::model::item_wf(self@.items[j]));
            }
        }
        MusicaList { version: self.version, author: self.author.clone(), items: acc }
    }

    /// Points the item whose id matches at catalog entry `catalog_id`,
    /// without validating that the entry exists.
    pub fn change_catalog(&self, id: u64, catalog_id: u64) -> (r: MusicaList)
        ensures
            r@.version == self@.version,
            r@.author == self@.author,
            r@.items == spec_change_catalog(self@.items, id, catalog_id),
            items_wf(self@.items) ==> items_wf(r@.items),
    {
        let n = self.items.len();
        let mut acc: Vec<ListItem> = Vec::new();
        let mut i: usize = 0;
        while i < n
            invariant
                i <= n,
                n == self.items.len(),
                acc@.len() == i,
                forall|j: int|
                    0 <= j < i ==> acc@[j] == spec_change_catalog(self@.items, id, catalog_id)[j],
            decreases n - i,
        {
            let it = self.items[i];
            if it.id == id {
                acc.push(ListItem { musical_id: catalog_id, ..it });
            } else {
                acc.push(it);
            }
            i += 1;
        }
        proof {
            assert(acc@ =~= spec_change_catalog(self@.items, id, catalog_id));
            assert forall|j: int|
                0 <= j < self@.items.len() implies items_wf(self@.items)
                ==> crate::model::item_wf(
                #[trigger] spec_change_catalog(self@.items, id, catalog_id)[j],
            ) by {
                assert(items_wf(self@.items) ==> crate::model::item_wf(self@.items[j]));
            }
        }
        MusicaList { version: self.version, author: self.author.clone(), items: acc }
    }

    /// Swaps the item at `pos` with its neighbour in the direction of
    /// `delta`, clamping at the list bounds: a move past either end is a
    /// no-op.
    pub fn move_item(&self, pos: usize, delta: i8) -> (r: MusicaList)
        requires
            delta == -1i8 || delta == 1i8,
            pos < self@.items.len(),
        ensures
            r@.version == self@.version,
            r@.author == self@.author,
            r@.items == spec_swap(
                self@.items,
                pos as int,
                spec_move_target(pos as int, delta as int, self@.items.len() as int),
            ),
            items_wf(self@.items) ==> items_wf(r@.items),
    {
        let n = self.items.len();
        let target: usize = if delta < 0 {
            if pos == 0 {
                0
            } else {
                pos - 1
            }
        } else {
            if pos + 1 >= n {
                n - 1
            } else {
                pos + 1
            }
        };
        let ghost swapped = spec_swap(self@.items, pos as int, target as int);
        let mut acc: Vec<ListItem> = Vec::new();
        let mut i: usize = 0;
        while i < n
            invariant
                i <= n,
                n == self.items.len(),
                pos < n,
                target < n,
                swapped == spec_swap(self@.items, pos as int, target as int),
                acc@.len() == i,
                forall|j: int| 0 <= j < i ==> acc@[j] == swapped[j],
            decreases n - i,
        {
            let it = if i == pos {
                self.items[target]
            } else if i == target {
                self.items[pos]
            } else {
                self.items[i]
            };
            acc.push(it);
            i += 1;
        }
        proof {
            assert(acc@ =~= swapped);
            assert forall|j: int|
                0 <= j < swapped.len() implies items_wf(self@.items) ==> crate::model::item_wf(
                #[trigger] swapped[j],
            ) by {
                assert(items_wf(self@.items) ==> crate::model::item_wf(self@.items[j]));
                assert(items_wf(self@.items) ==> crate::model::item_wf(
                    self@.items[pos as int],
                ));
                assert(items_wf(self@.items) ==> crate::model::item_wf(
                    self@.items[target as int],
                ));
            }
        }
        MusicaList { version: self.version, author: self.author.clone(), items: acc }
    }

    /// Appends a fresh item: id one past the current length, the given
    /// catalog entry, not viewed, rating `0`.
    pub fn add_item(&self, catalog_id: u64) -> (r: MusicaList)
        requires
            self@.items.len() < usize::MAX,
        ensures
            r@.version == self@.version,
            r@.author == self@.author,
            r@.items == self@.items.push(
                (ListItem {
                    id: spec_new_id(self@.items),
                    musical_id: catalog_id,
                    viewed: false,
                    rating: 0,
                }),
            ),
            items_wf(self@.items) ==> items_wf(r@.items),
    {
        let mut items: Vec<ListItem> = copy_items(&self.items);
        let id = items.len() as u64 + 1;
        items.push(ListItem { id, musical_id: catalog_id, viewed: false, rating: 0 });
        proof {
            if items_wf(self@.items) {
                assert forall|j: int| 0 <= j < items@.len() implies crate::model::item_wf(
                    #[trigger] items@[j],
                ) by {
                    if j < self@.items.len() {
                        assert(crate::model::item_wf(self@.items[j]));
                    }
                }
            }
        }
        MusicaList { version: self.version, author: self.author.clone(), items }
    }

    /// Replaces the author label. Content persisted under the old name is
    /// neither moved nor duplicated.
    pub fn with_author(&self, author: String) -> (r: MusicaList)
        ensures
            r@.version == self@.version,
            r@.author == author@,
            r@.items == self@.items,
            items_wf(self@.items) ==> items_wf(r@.items),
    {
        MusicaList { version: self.version, author, items: copy_items(&self.items) }
    }
}

/// Copies an item vector.
fn copy_items(items: &Vec<ListItem>) -> (r: Vec<ListItem>)
    ensures
        r@ == items@,
{
    let n = items.len();
    let mut acc: Vec<ListItem> = Vec::new();
    let mut i: usize = 0;
    while i < n
        invariant
            i <= n,
            n == items.len(),
            acc@.len() == i,
            forall|j: int| 0 <= j < i ==> acc@[j] == items@[j],
        decreases n - i,
    {
        acc.push(items[i]);
        i += 1;
    }
    proof {
        assert(acc@ =~= items@);
    }
    acc
}

/// Law: a move whose clamped target is its own position — one past either
/// end of the list — leaves the items unchanged.
pub proof fn lemma_move_clamp_noop(items: Seq<ListItem>, pos: int)
    requires
        0 <= pos < items.len(),
    ensures
        spec_swap(items, pos, pos) == items,
{
    assert(spec_swap(items, pos, pos) =~= items);
}

/// Appending an item either keeps it or drops it, depending on its id.
proof fn lemma_delete_push(items: Seq<ListItem>, x: ListItem, id: u64)
    ensures
        spec_delete(items.push(x), id) == if x.id == id {
            spec_delete(items, id)
        } else {
            spec_delete(items, id) + seq![x]
        },
    decreases items.len(),
{
    if items.len() == 0 {
        assert(items.push(x)[0] == x);
        assert(items.push(x).drop_first() =~= Seq::<ListItem>::empty());
        assert(spec_delete(Seq::<ListItem>::empty(), id) =~= Seq::<ListItem>::empty());
        assert(spec_delete(items, id) =~= Seq::<ListItem>::empty());
        if x.id == id {
            assert(spec_delete(items.push(x), id) == spec_delete(
                Seq::<ListItem>::empty(),
                id,
            ));
            assert(spec_delete(items.push(x), id) =~= spec_delete(items, id));
        } else {
            assert(spec_delete(items.push(x), id) == seq![x] + spec_delete(
                Seq::<ListItem>::empty(),
                id,
            ));
            assert(spec_delete(items.push(x), id) =~= spec_delete(items, id) + seq![x]);
        }
    } else {
        let d = items.drop_first();
        assert(items.push(x)[0] == items[0]);
        assert(items.push(x).drop_first() =~= d.push(x));
        lemma_delete_push(d, x, id);
        assert(spec_delete(items.push(x), id) == (if items[0].id == id {
            spec_delete(d.push(x), id)
        } else {
            seq![items[0]] + spec_delete(d.push(x), id)
        }));
        assert(spec_delete(items, id) == (if items[0].id == id {
            spec_delete(d, id)
        } else {
            seq![items[0]] + spec_delete(d, id)
        }));
        if x.id == id {
        } else {
            assert(spec_delete(items.push(x), id) =~= spec_delete(items, id) + seq![x]);
        }
    }
}

/// Law: deleting an id that no item carries leaves the list unchanged, in
/// length, order and content.
pub proof fn lemma_delete_absent(items: Seq<ListItem>, id: u64)
    requires
        forall|i: int| 0 <= i < items.len() ==> (#[trigger] items[i]).id != id,
    ensures
        spec_delete(items, id) == items,
    decreases items.len(),
{
    if items.len() == 0 {
        assert(spec_delete(items, id) =~= items);
    } else {
        assert(items[0].id != id);
        assert forall|i: int|
            0 <= i < items.drop_first().len() implies (#[trigger] items.drop_first()[i]).id
            != id by {
            assert(items.drop_first()[i] == items[i + 1]);
        }
        lemma_delete_absent(items.drop_first(), id);
        assert(spec_delete(items, id) =~= items);
    }
}

/// Every item that survives a delete came from the original list, so
/// well-formed ratings survive too.
proof fn lemma_delete_members(items: Seq<ListItem>, id: u64)
    ensures
        items_wf(items) ==> items_wf(spec_delete(items, id)),
    decreases items.len(),
{
    if items.len() == 0 {
    } else {
        assert(items_wf(items) ==> items_wf(items.drop_first())) by {
            if items_wf(items) {
                assert forall|i: int|
                    0 <= i < items.drop_first().len() implies crate::model::item_wf(
                    #[trigger] items.drop_first()[i],
                ) by {
                    assert(items.drop_first()[i] == items[i + 1]);
                    assert(crate::model::item_wf(items[i + 1]));
                }
            }
        }
        lemma_delete_members(items.drop_first(), id);
        if items_wf(items) {
            let rest = spec_delete(items.drop_first(), id);
            if items[0].id == id {
            } else {
                assert(crate::model::item_wf(items[0]));
                assert forall|i: int|
                    0 <= i < spec_delete(items, id).len() implies crate::model::item_wf(
                    #[trigger] spec_delete(items, id)[i],
                ) by {
                    if i == 0 {
                    } else {
                        assert(spec_delete(items, id)[i] == rest[i - 1]);
                    }
                }
            }
        }
    }
}

} // verus!
