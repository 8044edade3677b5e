//! The mathematical picture of a manifest: what the rewriting can tell of a
//! document, and what it makes of it.
//!
//! A table is its keys in declared order, the item under each key, and
//! what each of its entries is written as. Of a string the picture keeps
//! the text, of any other value what it is written as.

use crate::document::doc_view;
use crate::error::{Error, Missing};
use toml_edit::Document;
use vstd::prelude::*;

verus! {

/// Key under which a dependency names its repository.
pub const GIT: &'static str = "git";

/// Key under which a dependency pins a revision.
pub const REV: &'static str = "rev";

/// Key under which a dependency pins a branch.
pub const BRANCH: &'static str = "branch";

/// Name of the table of ordinary dependencies.
pub const DEPENDENCIES: &'static str = "dependencies";

/// Name of the table of development dependencies.
pub const DEV_DEPENDENCIES: &'static str = "dev-dependencies";

/// What a table holds.
#[verifier::ext_equal]
pub struct Fields {
    /// The keys in declared order.
    pub order: Seq<Seq<char>>,
    /// The item under each key.
    pub at: Map<Seq<char>, Node>,
    /// What the entry of each key is written as: the key and what stands
    /// under it, with the spaces and comments round them.
    pub written: Map<Seq<char>, Seq<char>>,
}

/// One item of a manifest.
#[verifier::ext_equal]
pub enum Node {
    /// A slot that holds nothing: a key whose item was taken out.
    Empty,
    /// A string value.
    Text(Seq<char>),
    /// Any other value that is not table-shaped, by what it is written as
    /// between the spaces and comments round it.
    Other(Seq<char>),
    /// An array of tables.
    Tables,
    /// An inline table: `{ key = value, .. }`.
    Inline(Fields),
    /// A block table: `[name]` followed by its entries.
    Block(Fields),
}

/// What a rewriting writes: the new repository, and the pin it sets.
pub struct Change {
    pub repo: Seq<char>,
    pub pin: Pin,
}

/// The pin that a rewriting sets on each entry it touches.
pub enum Pin {
    /// Leave `rev` and `branch` as they are.
    Keep,
    /// Set `rev` and remove `branch`.
    Rev(Seq<char>),
    /// Set `branch` and remove `rev`.
    Branch(Seq<char>),
}

/// The texts of a list of strings.
pub open spec fn names(v: Seq<String>) -> Seq<Seq<char>> {
    v.map_values(|s: String| s@)
}

/// A key that can be written bare: one or more of `A-Z a-z 0-9 - _`.
pub open spec fn bare_key(key: Seq<char>) -> bool {
    &&& key.len() > 0
    &&& forall|i: int| 0 <= i < key.len() ==> bare_char(#[trigger] key[i])
}

/// A character of a bare key.
pub open spec fn bare_char(c: char) -> bool {
    ||| 'A' <= c <= 'Z'
    ||| 'a' <= c <= 'z'
    ||| '0' <= c <= '9'
    ||| c == '-'
    ||| c == '_'
}

/// `order` with every occurrence of `key` taken out, the rest in place.
pub open spec fn dropped(order: Seq<Seq<char>>, key: Seq<char>) -> Seq<Seq<char>>
    decreases order.len(),
{
    if order.len() == 0 {
        order
    } else if order.last() == key {
        dropped(order.drop_last(), key)
    } else {
        dropped(order.drop_last(), key).push(order.last())
    }
}

impl Fields {
    /// The key is present and its slot is not empty.
    pub open spec fn has(self, key: Seq<char>) -> bool {
        self.at.dom().contains(key) && !(self.at[key] is Empty)
    }

    /// The table after `key` was removed.
    pub open spec fn without(self, key: Seq<char>) -> Fields {
        Fields {
            order: dropped(self.order, key),
            at: self.at.remove(key),
            written: self.written.remove(key),
        }
    }

    /// The table after `key = "text"` was added behind the last key, where
    /// the new entry is written as `form`.
    pub open spec fn with_text(self, key: Seq<char>, text: Seq<char>, form: Seq<char>) -> Fields {
        Fields {
            order: self.order.push(key),
            at: self.at.insert(key, Node::Text(text)),
            written: self.written.insert(key, form),
        }
    }

    /// The table after `key` was removed and added again as `key = "text"`:
    /// the key ends up last.
    pub open spec fn set_text(self, key: Seq<char>, text: Seq<char>, form: Seq<char>) -> Fields {
        self.without(key).with_text(key, text, form)
    }

    /// The table with its entries written as `forms` says.
    pub open spec fn styled(self, forms: Map<Seq<char>, Seq<char>>) -> Fields {
        Fields { order: self.order, at: self.at, written: forms }
    }

    /// The entries of one dependency after the change: `git` is removed and
    /// set to the new repository; then the pin is set and the other pin
    /// removed. The change fixes the keys and what stands under each; how
    /// the entries of a changed dependency are written is for `forms` to
    /// say.
    pub open spec fn repointed(self, c: Change, forms: Map<Seq<char>, Seq<char>>) -> Fields {
        let g = self.set_text(GIT@, c.repo, Seq::empty());
        match c.pin {
            Pin::Keep => g,
            Pin::Rev(r) => g.set_text(REV@, r, Seq::empty()).without(BRANCH@),
            Pin::Branch(b) => g.set_text(BRANCH@, b, Seq::empty()).without(REV@),
        }.styled(forms)
    }
}

impl Node {
    /// The item is a block table or an inline table.
    pub open spec fn table_shaped(self) -> bool {
        self is Inline || self is Block
    }

    /// The entries of a table-shaped item.
    pub open spec fn fields(self) -> Fields
        recommends
            self.table_shaped(),
    {
        match self {
            Node::Inline(f) => f,
            Node::Block(f) => f,
            _ => Fields { order: Seq::empty(), at: Map::empty(), written: Map::empty() },
        }
    }

    /// The item is a dependency that names a repository: it is table-shaped
    /// and has a `git` key.
    pub open spec fn eligible(self) -> bool {
        self.table_shaped() && self.fields().has(GIT@)
    }

    /// A table-shaped item after the change, with its entries written as
    /// those of `given` are; any other item as it was.
    pub open spec fn repointed(self, c: Change, given: Node) -> Node {
        match self {
            Node::Inline(f) => Node::Inline(f.repointed(c, given.fields().written)),
            Node::Block(f) => Node::Block(f.repointed(c, given.fields().written)),
            _ => self,
        }
    }
}

/// Those of `order` under which `at` holds an eligible item, in place.
pub open spec fn chosen(order: Seq<Seq<char>>, at: Map<Seq<char>, Node>) -> Seq<Seq<char>>
    decreases order.len(),
{
    if order.len() == 0 {
        order
    } else {
        let rest = chosen(order.drop_last(), at);
        let key = order.last();
        if at.dom().contains(key) && at[key].eligible() {
            rest.push(key)
        } else {
            rest
        }
    }
}

/// The names of the eligible entries of a dependency table, in declared order.
pub open spec fn eligible_names(table: Fields) -> Seq<Seq<char>> {
    chosen(table.order, table.at)
}

/// `name` is among `keys` and a table-shaped item stands under it: the
/// entry is one that is changed.
pub open spec fn touched(table: Fields, keys: Seq<Seq<char>>, name: Seq<char>) -> bool {
    keys.contains(name) && fit(table, name)
}

/// A dependency table after the entries named in `keys` were changed. A
/// name whose entry is not table-shaped changes nothing.
///
/// Every entry that is not changed stays what it was and is written as it
/// was. Of a changed entry the keys and what stands under each are fixed;
/// how it is written is taken from `given`.
pub open spec fn applied(table: Fields, keys: Seq<Seq<char>>, c: Change, given: Fields) -> Fields {
    Fields {
        order: table.order,
        at: Map::new(
            |k: Seq<char>| table.at.dom().contains(k),
            |k: Seq<char>|
                if touched(table, keys, k) {
                    table.at[k].repointed(c, given.at[k])
                } else {
                    table.at[k]
                },
        ),
        written: Map::new(
            |k: Seq<char>| table.written.dom().contains(k),
            |k: Seq<char>|
                if touched(table, keys, k) {
                    given.written[k]
                } else {
                    table.written[k]
                },
        ),
    }
}

/// A dependency table after every eligible entry was changed, with the
/// changed entries written as `given` has them.
pub open spec fn rewritten(table: Fields, c: Change, given: Fields) -> Fields {
    applied(table, eligible_names(table), c, given)
}

/// `name` is a key of the table and a table-shaped item stands under it.
pub open spec fn fit(table: Fields, name: Seq<char>) -> bool {
    table.at.dom().contains(name) && table.at[name].table_shaped()
}

/// How many names at the front of `keys` are fit.
pub open spec fn fit_count(table: Fields, keys: Seq<Seq<char>>) -> nat
    decreases keys.len(),
{
    if keys.len() == 0 {
        0
    } else if fit(table, keys.first()) {
        1 + fit_count(table, keys.drop_first())
    } else {
        0
    }
}

/// The entries of the block table that a document root holds under `name`,
/// or why there is none.
pub open spec fn table_of(root: Node, name: Seq<char>) -> Result<Fields, Missing> {
    match root {
        Node::Block(r) => {
            if !r.at.dom().contains(name) {
                Err(Missing::Section)
            } else {
                match r.at[name] {
                    Node::Block(table) => Ok(table),
                    _ => Err(Missing::Kind),
                }
            }
        },
        _ => Err(Missing::Root),
    }
}

/// What locating the eligible entries of the table `name` gives.
pub open spec fn located(root: Node, name: Seq<char>) -> Result<Seq<Seq<char>>, Error> {
    match table_of(root, name) {
        Ok(table) => Ok(eligible_names(table)),
        Err(missing) => Err(Error::NotFound(missing)),
    }
}

/// A document root after the table `name` was rewritten; the root as it
/// was, where it has no such table.
///
/// All that is not changed stays what it was and is written as it was: the
/// other entries of the root, and the entries of the table that are not
/// eligible. How the changed entries, and with them the table, are written
/// is taken from `given`.
pub open spec fn rewritten_table(root: Node, name: Seq<char>, c: Change, given: Node) -> Node {
    match table_of(root, name) {
        Ok(table) => Node::Block(
            Fields {
                order: root->Block_0.order,
                at: root->Block_0.at.insert(
                    name,
                    Node::Block(rewritten(table, c, given->Block_0.at[name]->Block_0)),
                ),
                written: Map::new(
                    |k: Seq<char>| root->Block_0.written.dom().contains(k),
                    |k: Seq<char>|
                        if k == name {
                            given->Block_0.written[k]
                        } else {
                            root->Block_0.written[k]
                        },
                ),
            },
        ),
        Err(_) => root,
    }
}

/// A document root after a run: both dependency tables rewritten, with
/// what was changed written as `given` has it.
pub open spec fn rewritten_root(root: Node, c: Change, given: Node) -> Node {
    rewritten_table(
        rewritten_table(root, DEPENDENCIES@, c, given),
        DEV_DEPENDENCIES@,
        c,
        given,
    )
}

/// The table `name` of the root, if there is one, has no eligible entry.
pub open spec fn idle(root: Node, name: Seq<char>) -> bool {
    table_of(root, name) matches Ok(table) ==> eligible_names(table).len() == 0
}

/// A run has nothing to change in a document of this root.
pub open spec fn quiet(root: Node) -> bool {
    idle(root, DEPENDENCIES@) && idle(root, DEV_DEPENDENCIES@)
}

/// What a run makes of one document: both dependency tables are
/// rewritten, and all that is not changed is written as it was; and a
/// document that gives it nothing to change is the same document
/// afterwards, to the last space.
pub open spec fn rewrites(c: Change, before: Document, after: Document) -> bool {
    &&& doc_view(after).root == rewritten_root(
        doc_view(before).root,
        c,
        doc_view(after).root,
    )
    &&& doc_view(after).trailing == doc_view(before).trailing
    &&& quiet(doc_view(before).root) ==> after == before
}

} // verus!
