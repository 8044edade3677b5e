//! What holds of the scan and of the rewriting, whatever the paths, the
//! documents and the settings.

use crate::document::{doc_view, parsed};
use crate::model::{
    quiet, rewrites, rewritten, rewritten_root, Change, Fields, Node, Pin, BRANCH, DEPENDENCIES,
    DEV_DEPENDENCIES, GIT, REV,
};
use crate::proofs::{lemma_chosen_agrees, lemma_chosen_fit, lemma_keys, lemma_repointed_twice};
use crate::scan::{included, selected};
use toml_edit::Document;
use vstd::prelude::*;

verus! {

/// The scan's answer depends on the path and the flag and on nothing else:
/// asked twice about the same path under the same flag, it says the same.
pub proof fn law_scan_is_a_function(
    manifests: Set<Seq<char>>,
    build_outputs: Set<Seq<char>>,
    first: Seq<char>,
    second: Seq<char>,
    first_flag: bool,
    second_flag: bool,
)
    requires
        first == second,
        first_flag == second_flag,
    ensures
        selected(manifests, build_outputs, first, first_flag) == selected(
            manifests,
            build_outputs,
            second,
            second_flag,
        ),
        included(first, first_flag) == included(second, second_flag),
{
}

/// Ignoring build output only ever takes paths away: a path that the scan
/// takes with build output ignored, it takes without.
pub proof fn law_ignoring_narrows(
    manifests: Set<Seq<char>>,
    build_outputs: Set<Seq<char>>,
    path: Seq<char>,
)
    ensures
        selected(manifests, build_outputs, path, true) ==> selected(
            manifests,
            build_outputs,
            path,
            false,
        ),
        included(path, true) ==> included(path, false),
{
}

/// A text that parsing and writing out give back as it stood, and that has
/// no eligible entry, comes out of a run as it went in.
pub proof fn law_round_trip(text: Seq<char>, before: Document, after: Document, c: Change)
    requires
        parsed(text) == Some(doc_view(before)),
        doc_view(before).text == text,
        quiet(doc_view(before).root),
        rewrites(c, before, after),
    ensures
        doc_view(after).text == text,
{
}

/// A run leaves the root of a document a table, so that a document that
/// was parsed can be written out after it.
pub proof fn law_root_stays_a_table(before: Document, after: Document, c: Change)
    requires
        doc_view(before).root is Block,
        rewrites(c, before, after),
    ensures
        doc_view(after).root is Block,
{
}

/// A run touches the two dependency tables of a document and nothing else
/// of it: the root keeps its keys in their order, and every entry under
/// another key is afterwards what it was and written as it was.
pub proof fn law_only_dependency_tables_change(root: Node, c: Change, given: Node, key: Seq<char>)
    requires
        root is Block,
        key != DEPENDENCIES@,
        key != DEV_DEPENDENCIES@,
    ensures
        ({
            let before = root->Block_0;
            let after = rewritten_root(root, c, given)->Block_0;
            &&& rewritten_root(root, c, given) is Block
            &&& after.order == before.order
            &&& after.at.dom() == before.at.dom()
            &&& after.written.dom() == before.written.dom()
            &&& before.at.dom().contains(key) ==> after.at[key] == before.at[key]
            &&& before.written.dom().contains(key) ==> after.written[key] == before.written[key]
        }),
{
    let after = rewritten_root(root, c, given)->Block_0;
    assert(after.at.dom() =~= root->Block_0.at.dom());
    assert(after.written.dom() =~= root->Block_0.written.dom());
}

/// A rewriting touches the eligible entries of a table and no others: an
/// entry without a `git` key is afterwards what it was and written as it
/// was, and an entry with one has the new repository under `git`. No entry
/// comes or goes.
pub proof fn law_only_eligible_entries_change(
    table: Fields,
    c: Change,
    given: Fields,
    name: Seq<char>,
)
    requires
        table.order.contains(name),
        table.at.dom().contains(name),
    ensures
        ({
            let after = rewritten(table, c, given);
            &&& after.order == table.order
            &&& after.at.dom() == table.at.dom()
            &&& after.written.dom() == table.written.dom()
            &&& !table.at[name].eligible() ==> {
                &&& after.at[name] == table.at[name]
                &&& table.written.dom().contains(name) ==> after.written[name]
                    == table.written[name]
            }
            &&& table.at[name].eligible() ==> {
                &&& after.at[name] is Inline == table.at[name] is Inline
                &&& after.at[name] is Block == table.at[name] is Block
                &&& after.at[name].fields().has(GIT@)
                &&& after.at[name].fields().at[GIT@] == Node::Text(c.repo)
            }
        }),
{
    lemma_keys();
    lemma_chosen_fit(table.order, table.at);
    let after = rewritten(table, c, given);
    assert(after.at.dom() =~= table.at.dom());
    assert(after.written.dom() =~= table.written.dom());
}

/// In a changed entry every key but `git`, `rev` and `branch` keeps what
/// stands under it: a string its text, any other value what it is written
/// as.
pub proof fn law_other_keys_keep_their_value(
    table: Fields,
    c: Change,
    given: Fields,
    name: Seq<char>,
    key: Seq<char>,
)
    requires
        table.order.contains(name),
        table.at.dom().contains(name),
        table.at[name].eligible(),
        key != GIT@,
        key != REV@,
        key != BRANCH@,
    ensures
        ({
            let before = table.at[name].fields();
            let after = rewritten(table, c, given).at[name].fields();
            &&& after.at.dom().contains(key) == before.at.dom().contains(key)
            &&& before.at.dom().contains(key) ==> after.at[key] == before.at[key]
        }),
{
    lemma_keys();
    lemma_chosen_fit(table.order, table.at);
}

/// After a rewriting an eligible entry has at most one of `rev` and
/// `branch`, and the pin that the settings ask for stands under its key
/// with the value they give.
///
/// Where the settings ask for no pin the entry keeps what it had, so the
/// law leaves out an entry that came with both.
pub proof fn law_one_pin(table: Fields, c: Change, given: Fields, name: Seq<char>)
    requires
        table.order.contains(name),
        table.at.dom().contains(name),
        table.at[name].eligible(),
        !(c.pin is Keep && table.at[name].fields().has(REV@) && table.at[name].fields().has(
            BRANCH@,
        )),
    ensures
        ({
            let before = table.at[name].fields();
            let after = rewritten(table, c, given).at[name].fields();
            &&& !(after.has(REV@) && after.has(BRANCH@))
            &&& c.pin matches Pin::Rev(rev) ==> after.has(REV@) && after.at[REV@] == Node::Text(
                rev,
            )
            &&& c.pin matches Pin::Branch(branch) ==> after.has(BRANCH@) && after.at[BRANCH@]
                == Node::Text(branch)
            &&& c.pin is Keep ==> {
                &&& after.has(REV@) == before.has(REV@)
                &&& after.has(BRANCH@) == before.has(BRANCH@)
                &&& before.has(REV@) ==> after.at[REV@] == before.at[REV@]
                &&& before.has(BRANCH@) ==> after.at[BRANCH@] == before.at[BRANCH@]
            }
        }),
{
    lemma_keys();
    lemma_chosen_fit(table.order, table.at);
}

/// A rewriting settles: under the same settings a second rewriting of a
/// table changes nothing more of its keys and of what stands under them.
pub proof fn law_rewriting_settles(table: Fields, c: Change, first: Fields, second: Fields)
    ensures
        rewritten(rewritten(table, c, first), c, second) == rewritten(table, c, second),
{
    lemma_keys();
    let once = rewritten(table, c, first);
    let goal = rewritten(table, c, second);
    assert(once.at.dom() =~= table.at.dom());
    lemma_chosen_fit(table.order, table.at);
    assert forall|k: Seq<char>| table.at.dom().contains(k) implies once.at[k].eligible()
        == table.at[k].eligible() by {}
    lemma_chosen_agrees(table.order, table.at, once.at);
    lemma_chosen_fit(once.order, once.at);
    assert forall|k: Seq<char>| table.at.dom().contains(k) implies rewritten(once, c, second).at[k]
        == goal.at[k] by {
        if table.at[k].table_shaped() {
            lemma_repointed_twice(
                table.at[k].fields(),
                c,
                first.at[k].fields().written,
                second.at[k].fields().written,
            );
        }
    }
    assert(rewritten(once, c, second).at =~= goal.at);
    assert(rewritten(once, c, second).written =~= goal.written);
}

} // verus!
