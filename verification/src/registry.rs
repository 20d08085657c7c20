//! The user registry: a deduplicated record of known author names, in
//! insertion order. The operations are specified here as pure functions on
//! name sequences; the persistence side lives with the store.
use vstd::prelude::*;

verus! {

use vstd::utf8::encode_utf8;
use crate::model::Users;
use crate::payload::names_utf8_total;
use crate::codec::{REG_COUNT_MAX, REG_BYTES_MAX};

/// Whether a name is already registered.
pub open spec fn registry_contains(names: Seq<Seq<char>>, u: Seq<char>) -> bool {
    exists|i: int| 0 <= i < names.len() && names[i] == u
}

/// Adding a name: a no-op when it is already present, else an append at the
/// end, so first-insertion positions never move.
pub open spec fn spec_registry_add(names: Seq<Seq<char>>, u: Seq<char>) -> Seq<Seq<char>> {
    if registry_contains(names, u) {
        names
    } else {
        names.push(u)
    }
}

/// Removing a name: every occurrence goes, the order of the rest is kept.
pub open spec fn spec_registry_remove(names: Seq<Seq<char>>, u: Seq<char>) -> Seq<Seq<char>>
    decreases names.len(),
{
    if names.len() == 0 {
        Seq::empty()
    } else {
        let rest = spec_registry_remove(names.drop_first(), u);
        if names[0] == u {
            rest
        } else {
            seq![names[0]] + rest
        }
    }
}

/// Whether one more name still fits under the registry size limits.
pub open spec fn registry_fits(names: Seq<Seq<char>>, u: Seq<char>) -> bool {
    names.len() < REG_COUNT_MAX && names_utf8_total(names) + encode_utf8(u).len()
        <= REG_BYTES_MAX
}

/// Law: adding the same name twice is the same as adding it once; the single
/// entry keeps its first-insertion position.
pub proof fn lemma_registry_add_idempotent(names: Seq<Seq<char>>, u: Seq<char>)
    ensures
        spec_registry_add(spec_registry_add(names, u), u) == spec_registry_add(names, u),
{
    let once = spec_registry_add(names, u);
    if registry_contains(names, u) {
    } else {
        assert(once[names.len() as int] == u);
        assert(registry_contains(once, u));
    }
}

/// Law: after adding a name it is registered.
pub proof fn lemma_registry_add_contains(names: Seq<Seq<char>>, u: Seq<char>)
    ensures
        registry_contains(spec_registry_add(names, u), u),
{
    if registry_contains(names, u) {
        let i = choose|i: int| 0 <= i < names.len() && names[i] == u;
        assert(spec_registry_add(names, u)[i] == u);
    } else {
        assert(spec_registry_add(names, u)[names.len() as int] == u);
    }
}

/// Law: after removing a name it is no longer registered, and every other
/// name is untouched, in its old order.
pub proof fn lemma_registry_remove_absent(names: Seq<Seq<char>>, u: Seq<char>)
    ensures
        !registry_contains(spec_registry_remove(names, u), u),
    decreases names.len(),
{
    if names.len() == 0 {
    } else {
        lemma_registry_remove_absent(names.drop_first(), u);
        let rest = spec_registry_remove(names.drop_first(), u);
        if names[0] == u {
        } else {
            assert forall|i: int|
                0 <= i < spec_registry_remove(names, u).len() implies #[trigger] spec_registry_remove(
                names,
                u,
            )[i] != u by {
                if i == 0 {
                } else {
                    assert(spec_registry_remove(names, u)[i] == rest[i - 1]);
                }
            }
        }
    }
}

/// Removing a name never grows the registry.
pub proof fn lemma_registry_remove_len(names: Seq<Seq<char>>, u: Seq<char>)
    ensures
        spec_registry_remove(names, u).len() <= names.len(),
    decreases names.len(),
{
    if names.len() == 0 {
    } else {
        lemma_registry_remove_len(names.drop_first(), u);
    }
}

/// Removing a name never grows the total name bytes.
pub proof fn lemma_registry_remove_total(names: Seq<Seq<char>>, u: Seq<char>)
    ensures
        names_utf8_total(spec_registry_remove(names, u)) <= names_utf8_total(names),
    decreases names.len(),
{
    if names.len() == 0 {
    } else {
        lemma_registry_remove_total(names.drop_first(), u);
        let rest = spec_registry_remove(names.drop_first(), u);
        if names[0] == u {
        } else {
            lemma_names_total_cons(names[0], rest);
        }
    }
}

/// The total over a name put in front of a run.
proof fn lemma_names_total_cons(x: Seq<char>, rest: Seq<Seq<char>>)
    ensures
        names_utf8_total(seq![x] + rest) == encode_utf8(x).len() + names_utf8_total(rest),
{
    assert((seq![x] + rest)[0] == x);
    assert((seq![x] + rest).drop_first() =~= rest);
    assert(names_utf8_total(seq![x] + rest) == encode_utf8((seq![x] + rest)[0]).len()
        + names_utf8_total((seq![x] + rest).drop_first()));
}


/// Appending a name to a run and then removing interacts pointwise.
pub proof fn lemma_registry_remove_push(names: Seq<Seq<char>>, x: Seq<char>, u: Seq<char>)
    ensures
        spec_registry_remove(names.push(x), u) == if x == u {
            spec_registry_remove(names, u)
        } else {
            spec_registry_remove(names, u) + seq![x]
        },
    decreases names.len(),
{
    if names.len() == 0 {
        assert(names.push(x)[0] == x);
        assert(names.push(x).drop_first() =~= Seq::<Seq<char>>::empty());
        assert(spec_registry_remove(Seq::<Seq<char>>::empty(), u) =~= Seq::<Seq<char>>::empty());
        assert(spec_registry_remove(names, u) =~= Seq::<Seq<char>>::empty());
        if x == u {
            assert(spec_registry_remove(names.push(x), u) == spec_registry_remove(
                Seq::<Seq<char>>::empty(),
                u,
            ));
            assert(spec_registry_remove(names.push(x), u) =~= spec_registry_remove(names, u));
        } else {
            assert(spec_registry_remove(names.push(x), u) == seq![x] + spec_registry_remove(
                Seq::<Seq<char>>::empty(),
                u,
            ));
            assert(spec_registry_remove(names.push(x), u) =~= spec_registry_remove(names, u)
                + seq![x]);
        }
    } else {
        let d = names.drop_first();
        assert(names.push(x)[0] == names[0]);
        assert(names.push(x).drop_first() =~= d.push(x));
        lemma_registry_remove_push(d, x, u);
        assert(spec_registry_remove(names.push(x), u) == (if names[0] == u {
            spec_registry_remove(d.push(x), u)
        } else {
            seq![names[0]] + spec_registry_remove(d.push(x), u)
        }));
        assert(spec_registry_remove(names, u) == (if names[0] == u {
            spec_registry_remove(d, u)
        } else {
            seq![names[0]] + spec_registry_remove(d, u)
        }));
        if x == u {
        } else {
            assert(spec_registry_remove(names.push(x), u) =~= spec_registry_remove(names, u)
                + seq![x]);
        }
    }
}

impl Users {
    /// Whether the registry holds this name.
    pub fn contains(&self, user: &String) -> (r: bool)
        ensures
            r == registry_contains(self@.names, user@),
    {
        let n = self.items.len();
        let mut i: usize = 0;
        while i < n
            invariant
                i <= n,
                n == self.items.len(),
                forall|j: int| 0 <= j < i ==> self@.names[j] != user@,
            decreases n - i,
        {
            if self.items[i] == *user {
                proof {
                    assert(self@.names[i as int] == user@);
                }
                return true;
            }
            proof {
                assert(self@.names[i as int] == self.items@[i as int]@);
            }
            i += 1;
        }
        false
    }
}

} // verus!
