//! Properties that hold across commands.
use vstd::prelude::*;

use crate::entity::{
    Enemy, Item, contains_key, index_of, lemma_index_of, lemma_put_unique, lemma_unique_index,
    lemma_without_unique, lookup, put, unique_keys, without,
};

verus! {

/// Moving an item from one uniquely named collection to another that holds
/// nothing of its name (room, inventory or container alike, each way) keeps
/// the number of items in the two together, and the item ends up in the
/// destination and no longer in the source.
pub proof fn lemma_transfer_conserves(src: Seq<Item>, dst: Seq<Item>, name: Seq<char>)
    requires
        unique_keys(src),
        unique_keys(dst),
        contains_key(src, name),
        !contains_key(dst, name),
    ensures
        ({
            let it = lookup(src, name)->Some_0;
            let src2 = without(src, name);
            let dst2 = put(dst, it);
            &&& it.name@ == name
            &&& src2.len() + dst2.len() == src.len() + dst.len()
            &&& !contains_key(src2, name)
            &&& lookup(dst2, name) == Some(it)
        }),
{
    lemma_index_of(src, name);
    let it = lookup(src, name)->Some_0;
    lemma_without_unique(src, name);
    lemma_put_unique(dst, it);
    lemma_index_of(dst, name);
    let dst2 = put(dst, it);
    assert(dst2[dst.len() as int] == it);
    lemma_unique_index(dst2, name, dst.len() as int);
}

/// An enemy that has died is gone from its room, where names are unique: a
/// further blow against it finds no enemy of that name, and so reports no
/// loot a second time.
pub proof fn lemma_loot_reported_once(enemies: Seq<Enemy>, name: Seq<char>)
    requires
        unique_keys(enemies),
    ensures
        !contains_key(without(enemies, name), name),
        index_of(without(enemies, name), name) == -1,
{
    lemma_without_unique(enemies, name);
    lemma_index_of(without(enemies, name), name);
}

} // verus!
