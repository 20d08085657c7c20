//! The bridge between the address, the store and the in-memory list state.
//!
//! The read path resolves the effective token — the `content` parameter when
//! present, else the stored slot selected by the one-shot `user` parameter,
//! else the anonymous slot — decodes it, and self-heals: a decoded state with
//! a non-empty author is immediately persisted, so visiting a shared link
//! registers its author and caches the content. The write path makes every
//! edit addressable: it encodes the new state, persists it, and pushes a new
//! history entry carrying the token.
use vstd::prelude::*;

verus! {

use crate::model::{MusicaList, MusicaListV, Query, QueryV};
use crate::codec::{
    b64_of,
    get_content,
    get_list_value,
    get_url,
    opt_str_view,
    spec_get_list_value,
    state_encodable,
};
use crate::payload::state_bytes;
use crate::store::{
    LocalStore,
    LocalStoreV,
    add_user_and_content,
    slot_lookup,
    spec_add_user_users,
};
use crate::history::History;

/// The token the read path works from: the `content` parameter when present,
/// else the slot selected by `user`, else the anonymous slot.
pub open spec fn spec_effective_token(st: LocalStoreV, q: QueryV) -> Option<Seq<char>> {
    match q.content {
        Some(t) => Some(t),
        None => match q.user {
            Some(u) => slot_lookup(st.slots, u),
            None => st.anon,
        },
    }
}

/// What the read path does to a store: nothing when the decoded state is
/// anonymous or no token was found; else the token lands in the anonymous
/// slot and the author's slot, and the author is registered.
pub open spec fn spec_read_effects(
    old_st: LocalStoreV,
    new_st: LocalStoreV,
    q: QueryV,
    r: MusicaListV,
) -> bool {
    let tok = spec_effective_token(old_st, q);
    &&& r == spec_get_list_value(tok)
    &&& (match tok {
        Some(c) => if r.author.len() > 0 {
            &&& new_st.anon == Some(c)
            &&& spec_add_user_users(old_st.users, new_st.users, r.author)
            &&& slot_lookup(new_st.slots, r.author) == Some(c)
            &&& (forall|a: Seq<char>|
                a != r.author ==> slot_lookup(new_st.slots, a) == slot_lookup(old_st.slots, a))
        } else {
            new_st == old_st
        },
        None => new_st == old_st,
    })
}

/// What the write path does to a store: nothing when the author is empty (an
/// empty author never persists); else the token lands in the anonymous slot
/// and the author's slot, and the author is registered.
pub open spec fn spec_write_effects(
    old_st: LocalStoreV,
    new_st: LocalStoreV,
    author: Seq<char>,
    c: Seq<char>,
) -> bool {
    if author.len() == 0 {
        new_st == old_st
    } else {
        &&& new_st.anon == Some(c)
        &&& spec_add_user_users(old_st.users, new_st.users, author)
        &&& slot_lookup(new_st.slots, author) == Some(c)
        &&& (forall|a: Seq<char>|
            a != author ==> slot_lookup(new_st.slots, a) == slot_lookup(old_st.slots, a))
    }
}

/// The read path: resolves the effective token for a query, decodes it, and
/// persists the result when it carries an author.
pub fn read_current(store: &mut LocalStore, query: &Query) -> (r: MusicaList)
    requires
        old(store)@.wf(),
    ensures
        final(store)@.wf(),
        r@.wf(),
        state_encodable(r@),
        spec_read_effects(old(store)@, final(store)@, query@, r@),
{
    let stored = store.get_content_local_storage(&query.user);
    let content: Option<String> = match &query.content {
        Some(c) => Some(c.clone()),
        None => stored,
    };
    proof {
        assert(opt_str_view(content) == spec_effective_token(old(store)@, query@));
    }
    let list = get_list_value(&content);
    match &content {
        Some(c) => {
            if !list.author.as_str().is_empty() {
                store.set_anon_content(c.clone());
                add_user_and_content(store, &list, c);
            }
        },
        None => {},
    }
    list
}

/// The write path: encodes the new state, persists it under the policy of
/// the store, pushes a new history entry carrying the token and the given
/// edit flag, and hands back the bookmarkable address and the token.
pub fn update_list(
    store: &mut LocalStore,
    history: &mut History,
    list_out: &MusicaList,
    edit: Option<bool>,
) -> (r: (String, String))
    requires
        old(store)@.wf(),
        old(history).wf(),
        old(history)@.entries.len() < usize::MAX,
        state_encodable(list_out@),
    ensures
        final(store)@.wf(),
        final(history).wf(),
        r.1@ == b64_of(state_bytes(list_out@)),
        r.0@ == "?content="@ + r.1@,
        spec_write_effects(old(store)@, final(store)@, list_out@.author, r.1@),
        final(history)@.entries == old(history)@.entries.take(old(history)@.pos + 1).push(
            (QueryV { content: Some(r.1@), edit, user: None }),
        ),
        final(history)@.pos == old(history)@.pos + 1,
{
    let (url, token) = get_url(list_out);
    if !list_out.author.as_str().is_empty() {
        store.set_anon_content(token.clone());
        add_user_and_content(store, list_out, &token);
    }
    history.push(Query { content: Some(token.clone()), edit, user: None });
    (url, token)
}

/// Re-pushes the current state's token with a flipped edit flag; the list
/// state itself and the store are untouched.
pub fn change_edit(history: &mut History, list: &MusicaList, edit: Option<bool>)
    requires
        old(history).wf(),
        old(history)@.entries.len() < usize::MAX,
        state_encodable(list@),
    ensures
        final(history).wf(),
        final(history)@.entries == old(history)@.entries.take(old(history)@.pos + 1).push(
            (QueryV {
                content: Some(b64_of(state_bytes(list@))),
                edit: Some(!(edit == Some(true))),
                user: None,
            }),
        ),
        final(history)@.pos == old(history)@.pos + 1,
{
    let token = get_content(list);
    let flipped = match edit {
        Some(true) => false,
        _ => true,
    };
    history.push(Query { content: Some(token), edit: Some(flipped), user: None });
}

/// Copies a query value.
fn clone_query(q: &Query) -> (r: Query)
    ensures
        r@ == q@,
{
    Query {
        content: match &q.content {
            Some(c) => Some(c.clone()),
            None => None,
        },
        edit: q.edit,
        user: match &q.user {
            Some(u) => Some(u.clone()),
            None => None,
        },
    }
}

/// Undo: step back one address, then re-run the read path against the new
/// current address. Stepping alone changes no application state; only the
/// re-decode does. At the oldest entry the step is a no-op.
pub fn undo(store: &mut LocalStore, history: &mut History) -> (r: MusicaList)
    requires
        old(store)@.wf(),
        old(history).wf(),
    ensures
        final(store)@.wf(),
        final(history).wf(),
        final(history)@.entries == old(history)@.entries,
        final(history)@.pos == (if old(history)@.pos > 0 {
            old(history)@.pos - 1
        } else {
            0
        }),
        r@.wf(),
        spec_read_effects(
            old(store)@,
            final(store)@,
            old(history)@.entries[final(history)@.pos],
            r@,
        ),
{
    history.back();
    let q = clone_query(history.current());
    read_current(store, &q)
}

/// Redo: step forward one address, then re-run the read path against the new
/// current address. At the newest entry the step is a no-op.
pub fn redo(store: &mut LocalStore, history: &mut History) -> (r: MusicaList)
    requires
        old(store)@.wf(),
        old(history).wf(),
    ensures
        final(store)@.wf(),
        final(history).wf(),
        final(history)@.entries == old(history)@.entries,
        final(history)@.pos == (if old(history)@.pos + 1 < old(history)@.entries.len() {
            old(history)@.pos + 1
        } else {
            old(history)@.pos
        }),
        r@.wf(),
        spec_read_effects(
            old(store)@,
            final(store)@,
            old(history)@.entries[final(history)@.pos],
            r@,
        ),
{
    history.forward();
    let q = clone_query(history.current());
    read_current(store, &q)
}

} // verus!
