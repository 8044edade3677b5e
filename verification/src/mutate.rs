//! The rewriting: which entries of a dependency table point at a repository,
//! and how each of them is changed.

use crate::config::Configuration;
use crate::document::{
    doc_view, inline_fields, inline_insert, item_node, render, root_item, root_item_mut,
    table_fields, table_keys, text_item,
};
use crate::error::{Error, Missing};
use crate::model::{
    applied, bare_key, chosen, eligible_names, fit, fit_count, located, names, rewrites,
    rewritten, rewritten_table, table_of, Fields, BRANCH, DEPENDENCIES, DEV_DEPENDENCIES, GIT,
    REV,
};
use crate::proofs::{
    lemma_chosen_fit, lemma_fit_count, lemma_keys, lemma_repointed_twice, lemma_table_names,
    lemma_two_tables,
};
use crate::quote::quote;
use crate::store::{rooted, ManifestFile};
use toml_edit::{Document, InlineTable, Item, Table};
use vstd::prelude::*;

verus! {

/// Tells whether an item is a dependency that names a repository: a block
/// table or an inline table with a `git` key.
fn is_git_dependency(item: &Item) -> (b: bool)
    ensures
        b == item_node(*item).eligible(),
{
    match item.as_inline_table() {
        Some(entry) => entry.contains_key(GIT),
        None => {
            match item.as_table() {
                Some(entry) => entry.contains_key(GIT),
                None => false,
            }
        },
    }
}

/// The names of the eligible entries of a dependency table, in declared
/// order.
fn eligible_entries(dep: &Table) -> (found: Vec<String>)
    ensures
        names(found@) == eligible_names(table_fields(*dep)),
{
    let keys = table_keys(dep);
    let mut found: Vec<String> = Vec::new();
    let ghost order = table_fields(*dep).order;
    let ghost at = table_fields(*dep).at;
    let mut i: usize = 0;
    while i < keys.len()
        invariant
            i <= keys.len(),
            names(keys@) == order,
            at == table_fields(*dep).at,
            names(found@) == chosen(order.take(i as int), at),
        decreases keys.len() - i,
    {
        let hit = match dep.get(keys[i].as_str()) {
            Some(item) => is_git_dependency(item),
            None => false,
        };
        proof {
            assert(order.take(i + 1).drop_last() =~= order.take(i as int));
        }
        if hit {
            found.push(keys[i].clone());
        }
        i += 1;
    }
    assert(order.take(keys.len() as int) =~= order);
    found
}

/// The block table that a document holds under `name`, or why there is none.
fn dependency_table<'a>(doc: &'a Document, name: &str) -> (r: Result<&'a Table, Missing>)
    ensures
        match r {
            Ok(table) => table_of(doc_view(*doc).root, name@) == Ok::<Fields, Missing>(
                table_fields(*table),
            ),
            Err(missing) => table_of(doc_view(*doc).root, name@) == Err::<Fields, Missing>(
                missing,
            ),
        },
{
    match root_item(doc).as_table() {
        None => Err(Missing::Root),
        Some(root) => {
            match root.get(name) {
                None => Err(Missing::Section),
                Some(item) => {
                    match item.as_table() {
                        None => Err(Missing::Kind),
                        Some(table) => Ok(table),
                    }
                },
            }
        },
    }
}

/// Tells whether a document holds a block table under `name`.
pub fn has_table(doc: &Document, name: &str) -> (b: bool)
    ensures
        b == (table_of(doc_view(*doc).root, name@) is Ok),
{
    dependency_table(doc, name).is_ok()
}

/// The names of the entries of the table `name` that a rewriting changes:
/// those whose value is a block table or an inline table with a `git` key,
/// in the order in which the table declares them.
///
/// It fails with `Error::NotFound` where the document has no block table of
/// that name, and says what was missing.
pub fn locate(doc: &Document, name: &str) -> (r: Result<Vec<String>, Error>)
    ensures
        match r {
            Ok(found) => located(doc_view(*doc).root, name@) == Ok::<Seq<Seq<char>>, Error>(
                names(found@),
            ),
            Err(e) => located(doc_view(*doc).root, name@) == Err::<Seq<Seq<char>>, Error>(e),
        },
{
    match dependency_table(doc, name) {
        Ok(table) => Ok(eligible_entries(table)),
        Err(missing) => Err(Error::NotFound(missing)),
    }
}

/// Rewrites the dependencies that point at a repository, as its settings say.
#[derive(Debug)]
pub struct MutateGitDeps {
    app_config: Configuration,
}

impl MutateGitDeps {
    /// The settings that the rewriting works under.
    pub closed spec fn config(&self) -> Configuration {
        self.app_config
    }

    /// A rewriting under the given settings.
    pub fn new(app_config: Configuration) -> (mutator: Self)
        ensures
            mutator.config() == app_config,
    {
        Self { app_config }
    }

    /// Sets `key = "text"` in an inline table: the key is removed, then
    /// added behind the last key, with the text between double quotes.
    fn put_inline(entry: &mut InlineTable, key: &str, text: &str)
        requires
            bare_key(key@),
        ensures
            inline_fields(*final(entry)) == inline_fields(*old(entry)).set_text(
                key@,
                text@,
                inline_fields(*final(entry)).written[key@],
            ),
    {
        let quoted = quote(text);
        let _ = entry.remove(key);
        inline_insert(entry, key, quoted.as_str());
    }

    /// Sets `key = "text"` in a block table: the key is removed, then added
    /// behind the last key, with the text between double quotes.
    fn put_block(entry: &mut Table, key: &str, text: &str)
        requires
            bare_key(key@),
        ensures
            table_fields(*final(entry)).order == table_fields(*old(entry)).set_text(
                key@,
                text@,
                Seq::empty(),
            ).order,
            table_fields(*final(entry)).at == table_fields(*old(entry)).set_text(
                key@,
                text@,
                Seq::empty(),
            ).at,
    {
        let quoted = quote(text);
        let _ = entry.remove(key);
        let slot = entry.entry(key);
        *slot = text_item(quoted.as_str());
    }

    /// Changes one dependency that is written as an inline table, and sets
    /// the spaces of the entry to the usual ones.
    fn repoint_inline(&self, entry: &mut InlineTable)
        ensures
            inline_fields(*final(entry)) == inline_fields(*old(entry)).repointed(
                self.config().change(),
                inline_fields(*final(entry)).written,
            ),
    {
        proof {
            lemma_keys();
        }
        Self::put_inline(entry, GIT, self.app_config.new_repo.as_str());
        match &self.app_config.rev {
            Some(rev) => {
                Self::put_inline(entry, REV, rev.as_str());
                let _ = entry.remove(BRANCH);
            },
            None => {
                match &self.app_config.branch {
                    Some(branch) => {
                        Self::put_inline(entry, BRANCH, branch.as_str());
                        let _ = entry.remove(REV);
                    },
                    None => {},
                }
            },
        }
        entry.fmt();
    }

    /// Changes one dependency that is written as a block table.
    fn repoint_block(&self, entry: &mut Table)
        ensures
            table_fields(*final(entry)) == table_fields(*old(entry)).repointed(
                self.config().change(),
                table_fields(*final(entry)).written,
            ),
    {
        proof {
            lemma_keys();
        }
        Self::put_block(entry, GIT, self.app_config.new_repo.as_str());
        match &self.app_config.rev {
            Some(rev) => {
                Self::put_block(entry, REV, rev.as_str());
                let _ = entry.remove(BRANCH);
            },
            None => {
                match &self.app_config.branch {
                    Some(branch) => {
                        Self::put_block(entry, BRANCH, branch.as_str());
                        let _ = entry.remove(REV);
                    },
                    None => {},
                }
            },
        }
    }

    /// Changes the entries of a dependency table that `keys` names, one
    /// after the other: in each, `git` is set to the new repository and the
    /// pin is set as the settings say. Every entry that is not changed
    /// stays what it was and is written as it was.
    ///
    /// It stops at the first name under which the table holds no
    /// table-shaped item, with `Error::Mutation` of that name; the entries
    /// named before it are changed by then.
    pub fn change_selected_values(&self, dep: &mut Table, keys: Vec<String>) -> (r: Result<
        (),
        Error,
    >)
        ensures
            ({
                let done = fit_count(table_fields(*old(dep)), names(keys@));
                &&& table_fields(*final(dep)) == applied(
                    table_fields(*old(dep)),
                    names(keys@).take(done as int),
                    self.config().change(),
                    table_fields(*final(dep)),
                )
                &&& done == keys.len() ==> r is Ok
                &&& done < keys.len() ==> (r matches Err(Error::Mutation(name)) && name@
                    == keys[done as int]@)
                &&& done == 0 ==> *final(dep) == *old(dep)
            }),
    {
        let ghost before = table_fields(*dep);
        let ghost change = self.config().change();
        let ghost all = names(keys@);
        let mut i: usize = 0;
        proof {
            let none = all.take(0);
            assert(none.len() == 0);
            assert(applied(before, none, change, before).at =~= before.at);
            assert(applied(before, none, change, before).written =~= before.written);
        }
        while i < keys.len()
            invariant
                i <= keys.len(),
                before == table_fields(*old(dep)),
                change == self.config().change(),
                all == names(keys@),
                forall|j: int| 0 <= j < i ==> fit(before, #[trigger] all[j]),
                table_fields(*dep) == applied(
                    before,
                    all.take(i as int),
                    change,
                    table_fields(*dep),
                ),
                i == 0 ==> *dep == *old(dep),
            decreases keys.len() - i,
        {
            let key = keys[i].as_str();
            let ghost now = table_fields(*dep);
            let ghost name = all[i as int];
            let ghost seen = all.take(i as int);
            let ghost next = all.take(i + 1);
            let shaped = match dep.get(key) {
                Some(item) => item.as_inline_table().is_some() || item.as_table().is_some(),
                None => false,
            };
            proof {
                assert(name == key@);
                assert(now.at.dom() =~= before.at.dom());
                assert(shaped == fit(before, name));
                if !shaped {
                    lemma_fit_count(before, all, i as int);
                }
            }
            if !shaped {
                return Err(Error::Mutation(keys[i].clone()));
            }
            match dep.get_mut(key) {
                None => {
                    return Err(Error::Mutation(keys[i].clone()));
                },
                Some(item) => {
                    match item.as_inline_table_mut() {
                        Some(entry) => {
                            self.repoint_inline(entry);
                        },
                        None => {
                            match item.as_table_mut() {
                                Some(entry) => {
                                    self.repoint_block(entry);
                                },
                                None => {
                                    return Err(Error::Mutation(keys[i].clone()));
                                },
                            }
                        },
                    }
                },
            }
            proof {
                let new = table_fields(*dep);
                let goal = applied(before, next, change, new);
                assert(next == seen.push(name));
                assert(next[i as int] == name);
                assert forall|k: Seq<char>| #[trigger] next.contains(k) <==> seen.contains(k) || k
                    == name by {
                    if seen.contains(k) {
                        let j = choose|j: int| 0 <= j < seen.len() && seen[j] == k;
                        assert(next[j] == k);
                    }
                    if next.contains(k) {
                        let j = choose|j: int| 0 <= j < next.len() && next[j] == k;
                        if j < i {
                            assert(seen[j] == k);
                        }
                    }
                }
                lemma_repointed_twice(
                    before.at[name].fields(),
                    change,
                    now.at[name].fields().written,
                    new.at[name].fields().written,
                );
                assert(new.at[name] == before.at[name].repointed(change, new.at[name]));
                assert forall|k: Seq<char>| new.at.dom().contains(k) implies new.at[k]
                    == goal.at[k] by {
                    if k != name {
                        assert(new.at[k] == now.at[k]);
                    }
                }
                assert(new.at =~= goal.at);
                assert forall|k: Seq<char>| new.written.dom().contains(k) implies new.written[k]
                    == goal.written[k] by {
                    if k != name {
                        assert(new.written.remove(name)[k] == now.written.remove(name)[k]);
                    }
                }
                assert(new.written =~= goal.written);
            }
            i += 1;
        }
        proof {
            assert(all.take(keys.len() as int) == all);
            lemma_fit_count(before, all, keys.len() as int);
        }
        Ok(())
    }

    /// Rewrites the table `name` of a document: every eligible entry of it
    /// is changed. All else of the document stays what it was and is
    /// written as it was: the entries of the table that are not eligible,
    /// every other entry of the root, and what stands behind the last.
    ///
    /// It fails, and leaves the document as it was, where the document has
    /// no block table of that name. Where the table has no eligible entry
    /// the document is not touched.
    pub fn mutate_git_deps(&self, doc: &mut Document, name: &str) -> (r: Result<(), Error>)
        ensures
            doc_view(*final(doc)).trailing == doc_view(*old(doc)).trailing,
            match located(doc_view(*old(doc)).root, name@) {
                Err(e) => r == Err::<(), Error>(e) && *final(doc) == *old(doc),
                Ok(found) => {
                    &&& r is Ok
                    &&& doc_view(*final(doc)).root == rewritten_table(
                        doc_view(*old(doc)).root,
                        name@,
                        self.config().change(),
                        doc_view(*final(doc)).root,
                    )
                    &&& found.len() == 0 ==> *final(doc) == *old(doc)
                },
            },
    {
        let keys = match locate(doc, name) {
            Ok(found) => found,
            Err(e) => {
                return Err(e);
            },
        };
        let ghost root = doc_view(*doc).root;
        let ghost table = table_of(root, name@)->Ok_0;
        let ghost change = self.config().change();
        proof {
            lemma_chosen_fit(table.order, table.at);
            lemma_fit_count(table, names(keys@), keys.len() as int);
            assert(names(keys@).take(keys.len() as int) =~= names(keys@));
        }
        if keys.len() == 0 {
            proof {
                let same = rewritten(table, change, table);
                assert(same.at =~= table.at);
                assert(same.written =~= table.written);
                let fields = root->Block_0;
                let goal = rewritten_table(root, name@, change, root)->Block_0;
                assert(goal.at =~= fields.at);
                assert(goal.written =~= fields.written);
            }
            return Ok(());
        }
        let r = match root_item_mut(doc).as_table_mut() {
            None => Err(Error::NotFound(Missing::Root)),
            Some(root_table) => {
                match root_table.get_mut(name) {
                    None => Err(Error::NotFound(Missing::Section)),
                    Some(item) => {
                        match item.as_table_mut() {
                            None => Err(Error::NotFound(Missing::Kind)),
                            Some(dep) => self.change_selected_values(dep, keys),
                        }
                    },
                }
            },
        };
        proof {
            let after = doc_view(*doc).root;
            let goal = rewritten_table(root, name@, change, after);
            assert(after is Block);
            assert(after->Block_0.at =~= goal->Block_0.at);
            assert forall|k: Seq<char>| after->Block_0.written.dom().contains(k) implies after->Block_0.written[k]
                == goal->Block_0.written[k] by {
                if k != name@ {
                    assert(after->Block_0.written.remove(name@)[k] == root->Block_0.written.remove(
                        name@,
                    )[k]);
                }
            }
            assert(after->Block_0.written =~= goal->Block_0.written);
        }
        r
    }

    /// Rewrites both dependency tables of a document, each where the
    /// document has it.
    pub fn mutate_document(&self, doc: &mut Document) -> (r: Result<(), Error>)
        ensures
            r is Ok,
            rewrites(self.config().change(), *old(doc), *final(doc)),
    {
        let ghost root = doc_view(*doc).root;
        let ghost change = self.config().change();
        proof {
            lemma_table_names();
        }
        if has_table(doc, DEPENDENCIES) {
            match self.mutate_git_deps(doc, DEPENDENCIES) {
                Err(e) => {
                    return Err(e);
                },
                Ok(()) => {},
            }
        }
        let ghost middle = doc_view(*doc).root;
        if has_table(doc, DEV_DEPENDENCIES) {
            match self.mutate_git_deps(doc, DEV_DEPENDENCIES) {
                Err(e) => {
                    return Err(e);
                },
                Ok(()) => {},
            }
        }
        proof {
            let after = doc_view(*doc).root;
            assert(middle == rewritten_table(root, DEPENDENCIES@, change, middle));
            assert(after == rewritten_table(middle, DEV_DEPENDENCIES@, change, after));
            lemma_two_tables(root, middle, after, change);
        }
        Ok(())
    }

    /// Rewrites every document of the store, then writes each of them out:
    /// the texts come in the order of the store, one for each file, changed
    /// or not.
    ///
    /// It fails, and leaves the store as it was, where the root of some
    /// document is no table.
    pub fn run(self, cargo_configs: &mut Vec<ManifestFile>) -> (r: Result<Vec<String>, Error>)
        ensures
            if !rooted(old(cargo_configs)@) {
                &&& r == Err::<Vec<String>, Error>(Error::NotFound(Missing::Root))
                &&& final(cargo_configs)@ == old(cargo_configs)@
            } else {
                &&& r matches Ok(texts)
                &&& texts.len() == old(cargo_configs).len()
                &&& final(cargo_configs).len() == old(cargo_configs).len()
                &&& forall|i: int|
                    0 <= i < old(cargo_configs).len() ==> {
                        let before = old(cargo_configs)[i];
                        let after = #[trigger] final(cargo_configs)[i];
                        &&& after.path == before.path
                        &&& rewrites(self.config().change(), before.doc, after.doc)
                        &&& texts[i]@ == doc_view(after.doc).text
                    }
            },
    {
        let ghost change = self.config().change();
        let mut i: usize = 0;
        while i < cargo_configs.len()
            invariant
                i <= cargo_configs.len(),
                *cargo_configs == *old(cargo_configs),
                forall|j: int| 0 <= j < i ==> doc_view(#[trigger] cargo_configs[j].doc).root is Block,
            decreases cargo_configs.len() - i,
        {
            if root_item(&cargo_configs[i].doc).as_table().is_none() {
                return Err(Error::NotFound(Missing::Root));
            }
            i += 1;
        }
        let mut i: usize = 0;
        while i < cargo_configs.len()
            invariant
                i <= cargo_configs.len(),
                change == self.config().change(),
                cargo_configs.len() == old(cargo_configs).len(),
                rooted(old(cargo_configs)@),
                forall|j: int|
                    0 <= j < i ==> {
                        let before = old(cargo_configs)[j];
                        let after = #[trigger] cargo_configs[j];
                        &&& after.path == before.path
                        &&& rewrites(change, before.doc, after.doc)
                    },
                forall|j: int|
                    i <= j < cargo_configs.len() ==> #[trigger] cargo_configs[j] == old(
                        cargo_configs,
                    )[j],
            decreases cargo_configs.len() - i,
        {
            let file = &mut cargo_configs[i];
            match self.mutate_document(&mut file.doc) {
                Err(e) => {
                    return Err(e);
                },
                Ok(()) => {},
            }
            i += 1;
        }
        let mut texts: Vec<String> = Vec::new();
        let mut i: usize = 0;
        while i < cargo_configs.len()
            invariant
                i <= cargo_configs.len(),
                texts.len() == i,
                change == self.config().change(),
                cargo_configs.len() == old(cargo_configs).len(),
                rooted(old(cargo_configs)@),
                forall|j: int|
                    0 <= j < cargo_configs.len() ==> {
                        let before = old(cargo_configs)[j];
                        let after = #[trigger] cargo_configs[j];
                        &&& after.path == before.path
                        &&& rewrites(change, before.doc, after.doc)
                    },
                forall|j: int|
                    0 <= j < i ==> (#[trigger] texts[j])@ == doc_view(cargo_configs[j].doc).text,
            decreases cargo_configs.len() - i,
        {
            texts.push(render(&cargo_configs[i].doc));
            i += 1;
        }
        Ok(texts)
    }
}

} // verus!
