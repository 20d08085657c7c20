//! The local persistence store: one token slot per author name, one
//! anonymous slot, and one slot holding the encoded user registry. Every
//! mutation whose resulting state carries a non-empty author writes both the
//! anonymous slot and that author's slot; an empty author never persists.
//! Removing an author cascades: the author's content slot goes with the
//! registry entry, and emptying the registry clears the anonymous slot too.
use vstd::prelude::*;

verus! {

use vstd::utf8::encode_utf8;
use crate::CURRENT_VERSION;
use crate::model::{MusicaList, Users, UsersV};
use crate::payload::{users_bytes, names_utf8_total, lemma_names_total_push, lemma_names_total_prefix};
use crate::codec::{
    b64_of,
    encode_users,
    get_users_value,
    spec_get_users_value,
    opt_str_view,
    users_encodable,
    REG_COUNT_MAX,
    REG_BYTES_MAX,
};
use crate::registry::{
    registry_contains,
    registry_fits,
    spec_registry_add,
    spec_registry_remove,
    lemma_registry_remove_push,
    lemma_registry_remove_len,
    lemma_registry_remove_total,
};

/// One per-author content slot.
pub struct Slot {
    pub author: String,
    pub token: String,
}

/// The mathematical value of a [`Slot`].
#[verifier::ext_equal]
pub ghost struct SlotV {
    pub author: Seq<char>,
    pub token: Seq<char>,
}

impl View for Slot {
    type V = SlotV;

    open spec fn view(&self) -> SlotV {
        SlotV { author: self.author@, token: self.token@ }
    }
}

/// The whole store: the anonymous content slot, the per-author slots, and
/// the registry slot.
pub struct LocalStore {
    pub anon: Option<String>,
    pub slots: Vec<Slot>,
    pub users: Option<String>,
}

/// The mathematical value of a [`LocalStore`].
#[verifier::ext_equal]
pub ghost struct LocalStoreV {
    pub anon: Option<Seq<char>>,
    pub slots: Seq<SlotV>,
    pub users: Option<Seq<char>>,
}

impl View for LocalStore {
    type V = LocalStoreV;

    open spec fn view(&self) -> LocalStoreV {
        LocalStoreV {
            anon: match self.anon {
                Some(ref t) => Some(t@),
                None => None,
            },
            slots: self.slots.deep_view(),
            users: match self.users {
                Some(ref t) => Some(t@),
                None => None,
            },
        }
    }
}

impl DeepView for Slot {
    type V = SlotV;

    open spec fn deep_view(&self) -> SlotV {
        self@
    }
}

/// The token stored for an author: the first matching slot.
pub open spec fn slot_lookup(slots: Seq<SlotV>, author: Seq<char>) -> Option<Seq<char>>
    decreases slots.len(),
{
    if slots.len() == 0 {
        None
    } else if slots[0].author == author {
        Some(slots[0].token)
    } else {
        slot_lookup(slots.drop_first(), author)
    }
}

/// Each author has at most one slot.
pub open spec fn slots_unique(slots: Seq<SlotV>) -> bool {
    forall|i: int, j: int|
        0 <= i < j < slots.len() ==> (#[trigger] slots[i]).author != (#[trigger] slots[j]).author
}

impl LocalStoreV {
    /// Well-formed store: no author has two slots.
    pub open spec fn wf(self) -> bool {
        slots_unique(self.slots)
    }
}

// ---------------------------------------------------------------------------
// Lookup lemmas
// ---------------------------------------------------------------------------
/// When the first match for `author` is at `i`, the lookup returns its token.
proof fn lemma_slot_lookup_at(slots: Seq<SlotV>, i: int)
    requires
        0 <= i < slots.len(),
        forall|j: int| 0 <= j < i ==> (#[trigger] slots[j]).author != slots[i].author,
    ensures
        slot_lookup(slots, slots[i].author) == Some(slots[i].token),
    decreases slots.len(),
{
    if i == 0 {
    } else {
        assert(slots[0].author != slots[i].author);
        assert forall|j: int|
            0 <= j < i - 1 implies (#[trigger] slots.drop_first()[j]).author != slots.drop_first()[i
            - 1].author by {
            assert(slots.drop_first()[j] == slots[j + 1]);
        }
        lemma_slot_lookup_at(slots.drop_first(), i - 1);
        assert(slots.drop_first()[i - 1] == slots[i]);
    }
}

/// When no slot carries `author`, the lookup is empty.
proof fn lemma_slot_lookup_none(slots: Seq<SlotV>, author: Seq<char>)
    requires
        forall|j: int| 0 <= j < slots.len() ==> (#[trigger] slots[j]).author != author,
    ensures
        slot_lookup(slots, author) is None,
    decreases slots.len(),
{
    if slots.len() == 0 {
    } else {
        assert forall|j: int|
            0 <= j < slots.drop_first().len() implies (#[trigger] slots.drop_first()[j]).author
            != author by {
            assert(slots.drop_first()[j] == slots[j + 1]);
        }
        lemma_slot_lookup_none(slots.drop_first(), author);
    }
}

/// Replacing the token of the first slot for an author changes that author's
/// lookup and no other.
proof fn lemma_slot_lookup_update(slots: Seq<SlotV>, i: int, token: Seq<char>)
    requires
        0 <= i < slots.len(),
        forall|j: int| 0 <= j < i ==> (#[trigger] slots[j]).author != slots[i].author,
    ensures
        slot_lookup(
            slots.update(i, (SlotV { author: slots[i].author, token })),
            slots[i].author,
        ) == Some(token),
        forall|a: Seq<char>|
            a != slots[i].author ==> slot_lookup(
                slots.update(i, (SlotV { author: slots[i].author, token })),
                a,
            ) == slot_lookup(slots, a),
    decreases slots.len(),
{
    let updated = slots.update(i, SlotV { author: slots[i].author, token });
    if i == 0 {
        assert(updated[0] == (SlotV { author: slots[0].author, token }));
        assert(updated.drop_first() =~= slots.drop_first());
        assert forall|a: Seq<char>|
            a != slots[i].author implies slot_lookup(updated, a) == slot_lookup(slots, a) by {
            assert(slot_lookup(updated, a) == slot_lookup(updated.drop_first(), a));
            assert(slot_lookup(slots, a) == slot_lookup(slots.drop_first(), a));
        }
    } else {
        assert(updated[0] == slots[0]);
        assert forall|j: int|
            0 <= j < i - 1 implies (#[trigger] slots.drop_first()[j]).author != slots.drop_first()[i
            - 1].author by {
            assert(slots.drop_first()[j] == slots[j + 1]);
        }
        lemma_slot_lookup_update(slots.drop_first(), i - 1, token);
        assert(slots.drop_first()[i - 1] == slots[i]);
        assert(updated.drop_first() =~= slots.drop_first().update(
            i - 1,
            (SlotV { author: slots[i].author, token }),
        ));
        assert(slots[0].author != slots[i].author);
        assert(slot_lookup(updated, slots[i].author) == slot_lookup(
            updated.drop_first(),
            slots[i].author,
        ));
        assert forall|a: Seq<char>|
            a != slots[i].author implies slot_lookup(updated, a) == slot_lookup(slots, a) by {
            if slots[0].author == a {
            } else {
                assert(slot_lookup(updated, a) == slot_lookup(updated.drop_first(), a));
                assert(slot_lookup(slots, a) == slot_lookup(slots.drop_first(), a));
            }
        }
    }
}

/// Appending a slot for a fresh author adds that author's lookup and changes
/// no other.
proof fn lemma_slot_lookup_push(slots: Seq<SlotV>, slot: SlotV)
    requires
        forall|j: int| 0 <= j < slots.len() ==> (#[trigger] slots[j]).author != slot.author,
    ensures
        slot_lookup(slots.push(slot), slot.author) == Some(slot.token),
        forall|a: Seq<char>|
            a != slot.author ==> slot_lookup(slots.push(slot), a) == slot_lookup(slots, a),
    decreases slots.len(),
{
    let pushed = slots.push(slot);
    if slots.len() == 0 {
        assert(pushed[0] == slot);
        assert(pushed.drop_first() =~= Seq::<SlotV>::empty());
        assert forall|a: Seq<char>|
            a != slot.author implies slot_lookup(pushed, a) == slot_lookup(slots, a) by {
            assert(slot_lookup(pushed, a) == slot_lookup(pushed.drop_first(), a));
        }
    } else {
        assert(pushed[0] == slots[0]);
        assert forall|j: int|
            0 <= j < slots.drop_first().len() implies (#[trigger] slots.drop_first()[j]).author
            != slot.author by {
            assert(slots.drop_first()[j] == slots[j + 1]);
        }
        lemma_slot_lookup_push(slots.drop_first(), slot);
        assert(pushed.drop_first() =~= slots.drop_first().push(slot));
        assert(slots[0].author != slot.author);
        assert(slot_lookup(pushed, slot.author) == slot_lookup(
            pushed.drop_first(),
            slot.author,
        ));
        assert forall|a: Seq<char>|
            a != slot.author implies slot_lookup(pushed, a) == slot_lookup(slots, a) by {
            if slots[0].author == a {
            } else {
                assert(slot_lookup(pushed, a) == slot_lookup(pushed.drop_first(), a));
                assert(slot_lookup(slots, a) == slot_lookup(slots.drop_first(), a));
            }
        }
    }
}

/// Removing the only slot for an author empties that author's lookup and
/// changes no other.
proof fn lemma_slot_lookup_remove(slots: Seq<SlotV>, i: int)
    requires
        0 <= i < slots.len(),
        forall|j: int|
            0 <= j < slots.len() && j != i ==> (#[trigger] slots[j]).author != slots[i].author,
    ensures
        slot_lookup(slots.remove(i), slots[i].author) is None,
        forall|a: Seq<char>|
            a != slots[i].author ==> slot_lookup(slots.remove(i), a) == slot_lookup(slots, a),
    decreases slots.len(),
{
    let removed = slots.remove(i);
    if i == 0 {
        assert(removed =~= slots.drop_first());
        assert forall|j: int|
            0 <= j < slots.drop_first().len() implies (#[trigger] slots.drop_first()[j]).author
            != slots[0].author by {
            assert(slots.drop_first()[j] == slots[j + 1]);
        }
        lemma_slot_lookup_none(slots.drop_first(), slots[0].author);
        assert forall|a: Seq<char>|
            a != slots[i].author implies slot_lookup(removed, a) == slot_lookup(slots, a) by {
            assert(slot_lookup(slots, a) == slot_lookup(slots.drop_first(), a));
        }
    } else {
        assert(removed[0] == slots[0]);
        assert forall|j: int|
            0 <= j < slots.drop_first().len() && j != i - 1 implies (#[trigger] slots.drop_first()[j]).author
            != slots.drop_first()[i - 1].author by {
            assert(slots.drop_first()[j] == slots[j + 1]);
        }
        lemma_slot_lookup_remove(slots.drop_first(), i - 1);
        assert(slots.drop_first()[i - 1] == slots[i]);
        assert(removed.drop_first() =~= slots.drop_first().remove(i - 1));
        assert(slots[0].author != slots[i].author);
        assert(slot_lookup(removed, slots[i].author) == slot_lookup(
            removed.drop_first(),
            slots[i].author,
        ));
        assert forall|a: Seq<char>|
            a != slots[i].author implies slot_lookup(removed, a) == slot_lookup(slots, a) by {
            if slots[0].author == a {
            } else {
                assert(slot_lookup(removed, a) == slot_lookup(removed.drop_first(), a));
                assert(slot_lookup(slots, a) == slot_lookup(slots.drop_first(), a));
            }
        }
    }
}

// ---------------------------------------------------------------------------
// The store
// ---------------------------------------------------------------------------
/// Finds the first slot for an author.
fn find_slot_index(slots: &Vec<Slot>, author: &String) -> (r: Option<usize>)
    ensures
        r matches Some(i) ==> i < slots.deep_view().len() && slots.deep_view()[i as int].author
            == author@ && (forall|j: int|
            0 <= j < i ==> (#[trigger] slots.deep_view()[j]).author != author@),
        r is None ==> forall|j: int|
            0 <= j < slots.deep_view().len() ==> (#[trigger] slots.deep_view()[j]).author
                != author@,
{
    let n = slots.len();
    let mut i: usize = 0;
    while i < n
        invariant
            i <= n,
            n == slots.len(),
            forall|j: int| 0 <= j < i ==> (#[trigger] slots.deep_view()[j]).author != author@,
        decreases n - i,
    {
        if slots[i].author == *author {
            proof {
                assert(slots.deep_view()[i as int].author == author@);
            }
            return Some(i);
        }
        proof {
            assert(slots.deep_view()[i as int].author == slots@[i as int].author@);
        }
        i += 1;
    }
    None
}

impl LocalStore {
    /// A fresh, empty store.
    pub fn new() -> (r: LocalStore)
        ensures
            r@.anon is None,
            r@.slots == Seq::<SlotV>::empty(),
            r@.users is None,
            r@.wf(),
    {
        let r = LocalStore { anon: None, slots: Vec::new(), users: None };
        proof {
            assert(r@.slots =~= Seq::<SlotV>::empty());
        }
        r
    }

    /// The stored token to load for a query: the selected author's slot when
    /// a one-shot `user` selector is present, else the anonymous slot.
    pub fn get_content_local_storage(&self, user: &Option<String>) -> (r: Option<String>)
        ensures
            opt_str_view(r) == (match *user {
                Some(ref u) => slot_lookup(self@.slots, u@),
                None => self@.anon,
            }),
    {
        match user {
            Some(u) => {
                match find_slot_index(&self.slots, u) {
                    Some(i) => {
                        proof {
                            lemma_slot_lookup_at(self@.slots, i as int);
                        }
                        Some(self.slots[i].token.clone())
                    },
                    None => {
                        proof {
                            lemma_slot_lookup_none(self@.slots, u@);
                        }
                        None
                    },
                }
            },
            None => {
                match &self.anon {
                    Some(t) => Some(t.clone()),
                    None => None,
                }
            },
        }
    }

    /// Writes the anonymous content slot.
    pub fn set_anon_content(&mut self, token: String)
        ensures
            final(self)@.anon == Some(token@),
            final(self)@.slots == old(self)@.slots,
            final(self)@.users == old(self)@.users,
            old(self)@.wf() ==> final(self)@.wf(),
    {
        self.anon = Some(token);
    }

    /// Writes the content slot of the list's author.
    pub fn save_user_content_to_local_storage(&mut self, list_value: &MusicaList, content: &String)
        requires
            old(self)@.wf(),
        ensures
            final(self)@.wf(),
            final(self)@.anon == old(self)@.anon,
            final(self)@.users == old(self)@.users,
            slot_lookup(final(self)@.slots, list_value@.author) == Some(content@),
            forall|a: Seq<char>|
                a != list_value@.author ==> slot_lookup(final(self)@.slots, a) == slot_lookup(
                    old(self)@.slots,
                    a,
                ),
    {
        let ghost slots0 = self@.slots;
        match find_slot_index(&self.slots, &list_value.author) {
            Some(i) => {
                let n = self.slots.len();
                let mut acc: Vec<Slot> = Vec::new();
                let mut k: usize = 0;
                while k < n
                    invariant
                        k <= n,
                        i < n,
                        n == self.slots.len(),
                        slots0 == self.slots.deep_view(),
                        slots0[i as int].author == list_value@.author,
                        acc@.len() == k,
                        forall|j: int|
                            0 <= j < k ==> (#[trigger] acc@[j])@ == (if j == i {
                                (SlotV { author: list_value@.author, token: content@ })
                            } else {
                                slots0[j]
                            }),
                    decreases n - k,
                {
                    if k == i {
                        acc.push(
                            Slot { author: list_value.author.clone(), token: content.clone() },
                        );
                    } else {
                        proof {
                            assert(slots0[k as int] == self.slots@[k as int]@);
                        }
                        acc.push(
                            Slot {
                                author: self.slots[k].author.clone(),
                                token: self.slots[k].token.clone(),
                            },
                        );
                    }
                    k += 1;
                }
                proof {
                    assert forall|j: int| 0 <= j < acc@.len() implies acc.deep_view()[j]
                        == acc@[j]@ by {}
                    assert(acc.deep_view() =~= slots0.update(
                        i as int,
                        (SlotV { author: list_value@.author, token: content@ }),
                    ));
                    lemma_slot_lookup_update(slots0, i as int, content@);
                    assert forall|x: int, y: int|
                        0 <= x < y < acc.deep_view().len() implies (#[trigger] acc.deep_view()[x]).author
                        != (#[trigger] acc.deep_view()[y]).author by {
                        assert(acc.deep_view()[x].author == slots0[x].author);
                        assert(acc.deep_view()[y].author == slots0[y].author);
                    }
                }
                self.slots = acc;
            },
            None => {
                proof {
                    lemma_slot_lookup_push(
                        slots0,
                        SlotV { author: list_value@.author, token: content@ },
                    );
                }
                self.slots.push(
                    Slot { author: list_value.author.clone(), token: content.clone() },
                );
                proof {
                    assert(self.slots.deep_view() =~= slots0.push(
                        (SlotV { author: list_value@.author, token: content@ }),
                    ));
                    assert forall|x: int, y: int|
                        0 <= x < y < self.slots.deep_view().len() implies (#[trigger] self.slots.deep_view()[x]).author
                        != (#[trigger] self.slots.deep_view()[y]).author by {
                        if y < slots0.len() {
                            assert(self.slots.deep_view()[x] == slots0[x]);
                            assert(self.slots.deep_view()[y] == slots0[y]);
                        } else {
                            assert(self.slots.deep_view()[y].author == list_value@.author);
                            assert(self.slots.deep_view()[x] == slots0[x]);
                        }
                    }
                }
            },
        }
    }

    /// Deletes the content slot of an author, if it exists.
    pub fn delete_user_content(&mut self, user: &String)
        requires
            old(self)@.wf(),
        ensures
            final(self)@.wf(),
            final(self)@.anon == old(self)@.anon,
            final(self)@.users == old(self)@.users,
            slot_lookup(final(self)@.slots, user@) is None,
            forall|a: Seq<char>|
                a != user@ ==> slot_lookup(final(self)@.slots, a) == slot_lookup(
                    old(self)@.slots,
                    a,
                ),
    {
        let ghost slots0 = self@.slots;
        match find_slot_index(&self.slots, user) {
            Some(i) => {
                let n = self.slots.len();
                let mut acc: Vec<Slot> = Vec::new();
                let mut k: usize = 0;
                while k < n
                    invariant
                        k <= n,
                        i < n,
                        n == self.slots.len(),
                        slots0 == self.slots.deep_view(),
                        acc@.len() == (if k <= i {
                            k as int
                        } else {
                            k - 1
                        }),
                        forall|j: int|
                            0 <= j < acc@.len() ==> (#[trigger] acc@[j])@ == (if j < i {
                                slots0[j]
                            } else {
                                slots0[j + 1]
                            }),
                    decreases n - k,
                {
                    if k != i {
                        proof {
                            assert(slots0[k as int] == self.slots@[k as int]@);
                        }
                        acc.push(
                            Slot {
                                author: self.slots[k].author.clone(),
                                token: self.slots[k].token.clone(),
                            },
                        );
                    }
                    k += 1;
                }
                proof {
                    assert forall|j: int| 0 <= j < acc@.len() implies acc.deep_view()[j]
                        == acc@[j]@ by {}
                    assert(acc.deep_view() =~= slots0.remove(i as int));
                    assert forall|j: int|
                        0 <= j < slots0.len() && j != i implies (#[trigger] slots0[j]).author
                        != slots0[i as int].author by {}
                    lemma_slot_lookup_remove(slots0, i as int);
                    assert(slots0[i as int].author == user@);
                    assert forall|x: int, y: int|
                        0 <= x < y < acc.deep_view().len() implies (#[trigger] acc.deep_view()[x]).author
                        != (#[trigger] acc.deep_view()[y]).author by {
                        let x0 = if x < i {
                            x
                        } else {
                            x + 1
                        };
                        let y0 = if y < i {
                            y
                        } else {
                            y + 1
                        };
                        assert(acc.deep_view()[x] == slots0[x0]);
                        assert(acc.deep_view()[y] == slots0[y0]);
                    }
                }
                self.slots = acc;
            },
            None => {
                proof {
                    lemma_slot_lookup_none(slots0, user@);
                }
            },
        }
    }
}


// ---------------------------------------------------------------------------
// Registry persistence
// ---------------------------------------------------------------------------
/// Sums the UTF-8 lengths of a registry's names.
fn names_total(names: &Vec<String>) -> (r: u64)
    requires
        names_utf8_total(names.deep_view()) <= REG_BYTES_MAX,
    ensures
        r == names_utf8_total(names.deep_view()),
{
    let ghost namesv = names.deep_view();
    let m = names.len();
    proof {
        assert(namesv.len() == m);
    }
    let mut total: u64 = 0;
    let mut i: usize = 0;
    while i < m
        invariant
            i <= m,
            m == names.len(),
            namesv == names.deep_view(),
            namesv.len() == m,
            names_utf8_total(namesv) <= REG_BYTES_MAX,
            total == names_utf8_total(namesv.take(i as int)),
        decreases m - i,
    {
        let len = names[i].as_str().as_bytes().len();
        proof {
            assert(names@[i as int]@ == namesv[i as int]);
            assert(len == encode_utf8(namesv[i as int]).len());
            lemma_names_total_push(namesv.take(i as int), namesv[i as int]);
            assert(namesv.take(i as int).push(namesv[i as int]) =~= namesv.take(i + 1 as int));
            lemma_names_total_prefix(namesv, i + 1 as int);
        }
        total = total + (len as u64);
        i += 1;
    }
    proof {
        assert(namesv.take(m as int) =~= namesv);
    }
    total
}

/// The current registry held in a store: the decoded `users` slot.
pub fn get_users(store: &LocalStore) -> (r: Users)
    ensures
        r@ == spec_get_users_value(store@.users),
        r@.wf(),
        users_encodable(r@),
        (store@.users matches Some(t) ==> forall|u: UsersV|
            (u.wf() && users_encodable(u) && t == b64_of(users_bytes(u))) ==> r@ == u),
{
    get_users_value(&store.users)
}

/// How adding an author changes the stored registry token: no change when
/// the name is present or one more name no longer fits the size limits, else
/// the token of the registry with the name appended.
pub open spec fn spec_add_user_users(
    old_users: Option<Seq<char>>,
    new_users: Option<Seq<char>>,
    u: Seq<char>,
) -> bool {
    let reg = spec_get_users_value(old_users);
    if registry_contains(reg.names, u) {
        new_users == old_users
    } else if registry_fits(reg.names, u) {
        new_users == Some(
            b64_of(
                users_bytes(
                    UsersV { version: CURRENT_VERSION, names: spec_registry_add(reg.names, u) },
                ),
            ),
        )
    } else {
        new_users == old_users
    }
}

/// Registers an author name: a no-op when it is already present (so repeated
/// additions keep a single entry in its first-insertion position), else an
/// append, guarded by the registry size limits.
pub fn add_user(store: &mut LocalStore, user: &String)
    ensures
        final(store)@.anon == old(store)@.anon,
        final(store)@.slots == old(store)@.slots,
        spec_add_user_users(old(store)@.users, final(store)@.users, user@),
{
    let users = get_users_value(&store.users);
    let ghost regnames = users@.names;
    if users.contains(user) {
        return;
    }
    let count = users.items.len();
    if count >= REG_COUNT_MAX {
        return;
    }
    let ulen = user.as_str().as_bytes().len();
    if ulen > REG_BYTES_MAX {
        return;
    }
    let total = names_total(&users.items);
    if total + (ulen as u64) > REG_BYTES_MAX as u64 {
        return;
    }
    let ghost items0 = users.items.deep_view();
    let mut items = users.items;
    items.push(user.clone());
    let new_users = Users { version: CURRENT_VERSION, items };
    proof {
        assert forall|j: int|
            0 <= j < new_users@.names.len() implies new_users@.names[j] == regnames.push(
            user@,
        )[j] by {
            assert(new_users@.names[j] == new_users.items@[j]@);
            if j < regnames.len() {
                assert(new_users.items@[j]@ == items0[j]);
            }
        }
        assert(new_users@.names =~= regnames.push(user@));
        lemma_names_total_push(regnames, user@);
        assert(users_encodable(new_users@));
    }
    let token = encode_users(&new_users);
    store.users = Some(token);
    proof {
        assert(new_users@ =~= (UsersV { version: CURRENT_VERSION, names: regnames.push(user@) }));
    }
}

/// How removing an author changes a store: no change at all when the name is
/// not registered; else the registry loses the name, the author's content
/// slot is deleted, and when the registry became empty the anonymous slot is
/// cleared too.
pub open spec fn spec_delete_user_post(
    old_store: LocalStoreV,
    new_store: LocalStoreV,
    u: Seq<char>,
) -> bool {
    let reg = spec_get_users_value(old_store.users);
    if !registry_contains(reg.names, u) {
        new_store == old_store
    } else {
        let rem = spec_registry_remove(reg.names, u);
        &&& new_store.users == Some(
            b64_of(users_bytes(UsersV { version: CURRENT_VERSION, names: rem })),
        )
        &&& slot_lookup(new_store.slots, u) is None
        &&& (forall|a: Seq<char>|
            a != u ==> slot_lookup(new_store.slots, a) == slot_lookup(old_store.slots, a))
        &&& new_store.anon == (if rem.len() == 0 {
            None::<Seq<char>>
        } else {
            old_store.anon
        })
    }
}

/// Removes an author: a no-op when the name is not registered, else a
/// cascade: the registry entry, the author's content slot, and — when no
/// author remains — the anonymous slot all go.
pub fn delete_user(store: &mut LocalStore, user: &String)
    requires
        old(store)@.wf(),
    ensures
        final(store)@.wf(),
        spec_delete_user_post(old(store)@, final(store)@, user@),
{
    let users = get_users_value(&store.users);
    let ghost regnames = users@.names;
    if !users.contains(user) {
        return;
    }
    let n = users.items.len();
    let mut kept: Vec<String> = Vec::new();
    let mut i: usize = 0;
    while i < n
        invariant
            i <= n,
            n == users.items.len(),
            regnames == users@.names,
            regnames.len() == n,
            kept.deep_view() == spec_registry_remove(regnames.take(i as int), user@),
        decreases n - i,
    {
        proof {
            lemma_registry_remove_push(regnames.take(i as int), regnames[i as int], user@);
            assert(regnames.take(i as int).push(regnames[i as int]) =~= regnames.take(
                i + 1 as int,
            ));
            assert(regnames[i as int] == users.items@[i as int]@);
        }
        let ghost kept0 = kept.deep_view();
        if users.items[i] == *user {
        } else {
            kept.push(users.items[i].clone());
            proof {
                assert forall|j: int|
                    0 <= j < kept.deep_view().len() implies kept.deep_view()[j] == kept0.push(
                    regnames[i as int],
                )[j] by {
                    assert(kept.deep_view()[j] == kept@[j]@);
                }
                assert(kept.deep_view() =~= kept0.push(regnames[i as int]));
                assert(kept0.push(regnames[i as int]) =~= kept0 + seq![regnames[i as int]]);
            }
        }
        i += 1;
    }
    proof {
        assert(regnames.take(n as int) =~= regnames);
        lemma_registry_remove_len(regnames, user@);
        lemma_registry_remove_total(regnames, user@);
    }
    let empty = kept.len() == 0;
    let new_users = Users { version: CURRENT_VERSION, items: kept };
    proof {
        assert(users_encodable(new_users@));
    }
    let token = encode_users(&new_users);
    store.users = Some(token);
    store.delete_user_content(user);
    if empty {
        store.anon = None;
    }
    proof {
        assert(new_users@ =~= (UsersV {
            version: CURRENT_VERSION,
            names: spec_registry_remove(regnames, user@),
        }));
    }
}

/// The write-through path of a persisted state: when the author is
/// non-empty, register the author and write the author's content slot; an
/// empty author never persists.
pub fn add_user_and_content(store: &mut LocalStore, list_value: &MusicaList, content: &String)
    requires
        old(store)@.wf(),
    ensures
        final(store)@.wf(),
        list_value@.author.len() == 0 ==> final(store)@ == old(store)@,
        list_value@.author.len() > 0 ==> final(store)@.anon == old(store)@.anon,
        list_value@.author.len() > 0 ==> spec_add_user_users(
            old(store)@.users,
            final(store)@.users,
            list_value@.author,
        ),
        list_value@.author.len() > 0 ==> slot_lookup(final(store)@.slots, list_value@.author)
            == Some(content@),
        list_value@.author.len() > 0 ==> (forall|a: Seq<char>|
            a != list_value@.author ==> slot_lookup(final(store)@.slots, a) == slot_lookup(
                old(store)@.slots,
                a,
            )),
    {
    if list_value.author.as_str().is_empty() {
        return;
    }
    add_user(store, &list_value.author);
    store.save_user_content_to_local_storage(list_value, content);
}

} // verus!
