//! Lemmas about the picture of a manifest that the proofs of the rewriting
//! lean on.

use crate::model::{
    bare_key, chosen, dropped, fit, fit_count, rewritten_root, rewritten_table, table_of, Change,
    Fields, Node, Pin, BRANCH, DEPENDENCIES, DEV_DEPENDENCIES, GIT, REV,
};
use vstd::prelude::*;

verus! {

/// The three keys that a rewriting writes are bare keys, and no two of them
/// are the same.
pub(crate) proof fn lemma_keys()
    ensures
        bare_key(GIT@),
        bare_key(REV@),
        bare_key(BRANCH@),
        GIT@ != REV@,
        GIT@ != BRANCH@,
        REV@ != BRANCH@,
{
    reveal_strlit("git");
    reveal_strlit("rev");
    reveal_strlit("branch");
    assert(GIT@.len() == 3 && REV@.len() == 3 && BRANCH@.len() == 6);
    assert(GIT@[0] == 'g' && REV@[0] == 'r');
}

/// The names of the two dependency tables differ.
pub(crate) proof fn lemma_table_names()
    ensures
        DEPENDENCIES@ != DEV_DEPENDENCIES@,
{
    reveal_strlit("dependencies");
    reveal_strlit("dev-dependencies");
    assert(DEPENDENCIES@.len() == 12 && DEV_DEPENDENCIES@.len() == 16);
}

/// Dropping a key from a list with one more element behind it.
pub(crate) proof fn lemma_dropped_push(order: Seq<Seq<char>>, last: Seq<char>, key: Seq<char>)
    ensures
        dropped(order.push(last), key) == if last == key {
            dropped(order, key)
        } else {
            dropped(order, key).push(last)
        },
{
    assert(order.push(last).drop_last() =~= order);
}

/// What is left after a key was dropped: all that was there but the key.
pub(crate) proof fn lemma_dropped_contains(order: Seq<Seq<char>>, key: Seq<char>, other: Seq<char>)
    ensures
        dropped(order, key).contains(other) <==> order.contains(other) && other != key,
    decreases order.len(),
{
    if order.len() > 0 {
        let rest = order.drop_last();
        lemma_dropped_contains(rest, key, other);
        assert(order =~= rest.push(order.last()));
        if order.contains(other) {
            let i = choose|i: int| 0 <= i < order.len() && order[i] == other;
            if i < order.len() - 1 {
                assert(rest[i] == other);
            }
        }
        if rest.contains(other) {
            let i = choose|i: int| 0 <= i < rest.len() && rest[i] == other;
            assert(order[i] == other);
        }
        if order.last() != key {
            let d = dropped(rest, key);
            assert(d.push(order.last())[d.len() as int] == order.last());
            if d.contains(other) {
                let i = choose|i: int| 0 <= i < d.len() && d[i] == other;
                assert(d.push(order.last())[i] == other);
            }
            if d.push(order.last()).contains(other) {
                let i = choose|i: int|
                    0 <= i < d.push(order.last()).len() && d.push(order.last())[i] == other;
                if i < d.len() {
                    assert(d[i] == other);
                }
            }
        }
    }
}

/// Dropping a key that is not there changes nothing.
pub(crate) proof fn lemma_dropped_absent(order: Seq<Seq<char>>, key: Seq<char>)
    requires
        !order.contains(key),
    ensures
        dropped(order, key) == order,
    decreases order.len(),
{
    if order.len() > 0 {
        let rest = order.drop_last();
        assert(order[order.len() - 1] == order.last());
        assert forall|i: int| 0 <= i < rest.len() implies rest[i] != key by {
            assert(order[i] == rest[i]);
        }
        lemma_dropped_absent(rest, key);
        assert(rest.push(order.last()) =~= order);
    }
}

/// The order of keys after a pin was set on an entry whose `git` key was
/// just set: the keys that are none of the three, then `git`, then the pin.
proof fn lemma_pinned_order(order: Seq<Seq<char>>, pin: Seq<char>, other: Seq<char>)
    requires
        GIT@ != pin,
        GIT@ != other,
        pin != other,
    ensures
        dropped(dropped(dropped(order, GIT@).push(GIT@), pin).push(pin), other) == dropped(
            dropped(dropped(order, GIT@), pin),
            other,
        ).push(GIT@).push(pin),
        !dropped(dropped(dropped(order, GIT@), pin), other).contains(GIT@),
        !dropped(dropped(dropped(order, GIT@), pin), other).contains(pin),
        !dropped(dropped(dropped(order, GIT@), pin), other).contains(other),
{
    let a = dropped(order, GIT@);
    let b = dropped(a, pin);
    let d = dropped(b, other);
    lemma_dropped_push(a, GIT@, pin);
    lemma_dropped_push(b.push(GIT@), pin, other);
    lemma_dropped_push(b, GIT@, other);
    lemma_dropped_contains(order, GIT@, GIT@);
    lemma_dropped_contains(a, pin, GIT@);
    lemma_dropped_contains(a, pin, pin);
    lemma_dropped_contains(b, other, GIT@);
    lemma_dropped_contains(b, other, pin);
    lemma_dropped_contains(b, other, other);
}

/// The order of keys that setting `git` and a pin leaves is not changed by
/// setting them again.
proof fn lemma_pinned_twice(order: Seq<Seq<char>>, pin: Seq<char>, other: Seq<char>)
    requires
        GIT@ != pin,
        GIT@ != other,
        pin != other,
    ensures
        ({
            let once = dropped(dropped(dropped(order, GIT@).push(GIT@), pin).push(pin), other);
            dropped(dropped(dropped(once, GIT@).push(GIT@), pin).push(pin), other) == once
        }),
{
    let d = dropped(dropped(dropped(order, GIT@), pin), other);
    let once = dropped(dropped(dropped(order, GIT@).push(GIT@), pin).push(pin), other);
    lemma_pinned_order(order, pin, other);
    assert(once == d.push(GIT@).push(pin));
    lemma_dropped_absent(d, GIT@);
    lemma_dropped_absent(d, pin);
    lemma_dropped_absent(d, other);
    // once more, from `d + git + pin`
    lemma_dropped_push(d.push(GIT@), pin, GIT@);
    lemma_dropped_push(d, GIT@, GIT@);
    assert(dropped(once, GIT@) == d.push(pin));
    lemma_dropped_push(d.push(pin), GIT@, pin);
    lemma_dropped_push(d, pin, pin);
    assert(dropped(d.push(pin).push(GIT@), pin) == d.push(GIT@));
    lemma_dropped_push(d.push(GIT@), pin, other);
    lemma_dropped_push(d, GIT@, other);
}

/// Changing an entry a second time leaves its keys, and what stands under
/// each, as the first change made them.
pub(crate) proof fn lemma_repointed_twice(
    f: Fields,
    c: Change,
    first: Map<Seq<char>, Seq<char>>,
    second: Map<Seq<char>, Seq<char>>,
)
    ensures
        f.repointed(c, first).repointed(c, second) == f.repointed(c, second),
{
    lemma_keys();
    let once = f.repointed(c, first);
    let twice = once.repointed(c, second);
    let a = dropped(f.order, GIT@);
    lemma_dropped_contains(f.order, GIT@, GIT@);
    match c.pin {
        Pin::Keep => {
            lemma_dropped_push(a, GIT@, GIT@);
            lemma_dropped_absent(a, GIT@);
        },
        Pin::Rev(r) => {
            lemma_pinned_twice(f.order, REV@, BRANCH@);
        },
        Pin::Branch(b) => {
            lemma_pinned_twice(f.order, BRANCH@, REV@);
        },
    }
    assert(twice.order == f.repointed(c, second).order);
    assert(twice.at =~= f.repointed(c, second).at);
}

/// Rewriting one dependency table of a root and then the other is the
/// rewriting of both.
pub(crate) proof fn lemma_two_tables(root: Node, middle: Node, after: Node, c: Change)
    requires
        middle == rewritten_table(root, DEPENDENCIES@, c, middle),
        after == rewritten_table(middle, DEV_DEPENDENCIES@, c, after),
    ensures
        after == rewritten_root(root, c, after),
{
    lemma_table_names();
    if root is Block {
        let first = rewritten_table(root, DEPENDENCIES@, c, after);
        if table_of(root, DEPENDENCIES@) is Ok {
            assert(middle is Block);
            if table_of(middle, DEV_DEPENDENCIES@) is Ok {
                assert(after->Block_0.at[DEPENDENCIES@] == middle->Block_0.at[DEPENDENCIES@]);
                if middle->Block_0.written.dom().contains(DEPENDENCIES@) {
                    assert(after->Block_0.written[DEPENDENCIES@] == middle->Block_0.written[
                        DEPENDENCIES@
                    ]);
                }
            }
            assert(first->Block_0.at =~= middle->Block_0.at);
            assert(first->Block_0.written =~= middle->Block_0.written);
            assert(first == middle);
        }
    }
}

/// Two pictures of a table with the same keys, in which the same entries
/// are eligible, give the same choice.
pub(crate) proof fn lemma_chosen_agrees(
    order: Seq<Seq<char>>,
    first: Map<Seq<char>, Node>,
    second: Map<Seq<char>, Node>,
)
    requires
        first.dom() == second.dom(),
        forall|k: Seq<char>| first.dom().contains(k) ==> first[k].eligible() == second[k].eligible(),
    ensures
        chosen(order, first) == chosen(order, second),
    decreases order.len(),
{
    if order.len() > 0 {
        lemma_chosen_agrees(order.drop_last(), first, second);
    }
}

/// Where the first `n` names are fit, and the one after them, if any, is
/// not, `n` names are counted.
pub(crate) proof fn lemma_fit_count(table: Fields, keys: Seq<Seq<char>>, n: int)
    requires
        0 <= n <= keys.len(),
        forall|j: int| 0 <= j < n ==> fit(table, #[trigger] keys[j]),
        n < keys.len() ==> !fit(table, keys[n]),
    ensures
        fit_count(table, keys) == n,
    decreases keys.len(),
{
    if keys.len() > 0 && n > 0 {
        lemma_fit_count(table, keys.drop_first(), n - 1);
    }
}

/// Every chosen name is a key under which an eligible item stands, so it
/// is fit; and every such key of the order is chosen.
pub(crate) proof fn lemma_chosen_fit(order: Seq<Seq<char>>, at: Map<Seq<char>, Node>)
    ensures
        forall|j: int|
            0 <= j < chosen(order, at).len() ==> {
                let name = #[trigger] chosen(order, at)[j];
                at.dom().contains(name) && at[name].eligible() && order.contains(name)
            },
        forall|j: int|
            0 <= j < order.len() && at.dom().contains(order[j]) && at[order[j]].eligible()
                ==> chosen(order, at).contains(#[trigger] order[j]),
    decreases order.len(),
{
    if order.len() > 0 {
        let rest = order.drop_last();
        let last = order.last();
        lemma_chosen_fit(rest, at);
        let got = chosen(order, at);
        let prev = chosen(rest, at);
        assert forall|j: int| 0 <= j < got.len() implies ({
            let name = #[trigger] got[j];
            at.dom().contains(name) && at[name].eligible() && order.contains(name)
        }) by {
            if j < prev.len() {
                assert(got[j] == prev[j]);
                let name = prev[j];
                let i = choose|i: int| 0 <= i < rest.len() && rest[i] == name;
                assert(order[i] == name);
            } else {
                assert(got[j] == last);
                assert(order[order.len() - 1] == last);
            }
        }
        assert forall|j: int|
            0 <= j < order.len() && at.dom().contains(order[j])
                && at[order[j]].eligible() implies got.contains(#[trigger] order[j]) by {
            if j < rest.len() {
                assert(rest[j] == order[j]);
                let i = choose|i: int| 0 <= i < prev.len() && prev[i] == rest[j];
                assert(got[i] == order[j]);
            } else {
                assert(got[got.len() - 1] == last);
            }
        }
    }
}

} // verus!
