//! A room: a node of the world graph with its paths, items and enemies.
use vstd::prelude::*;
use vstd::string::StringExecFns;

use crate::entity::{Enemy, Item, Named, Path, put, put_in};
use crate::text::push;

verus! {

pub struct Room {
    pub name: String,
    /// The base description, followed by the lines of every added path.
    pub desc: String,
    pub paths: Vec<Path>,
    pub items: Vec<Item>,
    pub enemies: Vec<Enemy>,
}

impl Named for Room {
    open spec fn key(&self) -> Seq<char> {
        self.name@
    }

    fn name_ref(&self) -> (r: &String) {
        &self.name
    }
}

/// The descriptions of `s`, one after another.
pub open spec fn item_descs(s: Seq<Item>) -> Seq<char>
    decreases s.len(),
{
    if s.len() == 0 {
        Seq::empty()
    } else {
        item_descs(s.drop_last()) + s.last().desc@
    }
}

/// What a room's full description reads.
pub open spec fn room_text(r: Room) -> Seq<char> {
    r.name@ + "\n"@ + r.desc@ + "\n"@ + item_descs(r.items@)
}

impl Room {
    /// A room with the given items and no paths or enemies.
    pub fn new(name: &str, desc: &str, items: Vec<Item>) -> (r: Room)
        ensures
            r.name@ == name@,
            r.desc@ == desc@,
            r.paths@.len() == 0,
            r.items@ == items@,
            r.enemies@.len() == 0,
    {
        Room {
            name: name.to_owned(),
            desc: desc.to_owned(),
            paths: Vec::new(),
            items,
            enemies: Vec::new(),
        }
    }

    pub fn name(&self) -> (r: String)
        ensures
            r@ == self.name@,
    {
        self.name.clone()
    }

    /// Compiles the room's name, its description and the description of
    /// each item, in the order the items were placed.
    pub fn desc(&self) -> (r: String)
        ensures
            r@ == room_text(*self),
    {
        let mut s = self.name.clone();
        push(&mut s, "\n");
        push(&mut s, self.desc.as_str());
        push(&mut s, "\n");
        let mut i: usize = 0;
        while i < self.items.len()
            invariant
                i <= self.items@.len(),
                s@ == self.name@ + "\n"@ + self.desc@ + "\n"@ + item_descs(self.items@.take(i as int)),
            decreases self.items@.len() - i,
        {
            assert(self.items@.take(i + 1).drop_last() =~= self.items@.take(i as int));
            push(&mut s, self.items[i].desc.as_str());
            i = i + 1;
            assert(s@ =~= self.name@ + "\n"@ + self.desc@ + "\n"@ + item_descs(self.items@.take(i as int)));
        }
        assert(self.items@.take(i as int) =~= self.items@);
        s
    }

    /// Adds an open, unlocked path in direction `dir` to the room named
    /// `room`, and appends the line `desc` to the room's description.
    pub fn add_path(&mut self, dir: &str, room: &String, desc: &str)
        ensures
            exists|p: Path|
                final(self).paths@ == put(old(self).paths@, p) && p.direction@ == dir@ && p.target@ == room@
                    && p.inspection@ == desc@ && !p.locked && !p.closed,
            final(self).desc@ == old(self).desc@ + "\n"@ + desc@,
            final(self).name == old(self).name,
            final(self).items@ == old(self).items@,
            final(self).enemies@ == old(self).enemies@,
    {
        let p = Path {
            direction: dir.to_owned(),
            target: room.clone(),
            inspection: desc.to_owned(),
            locked: false,
            closed: false,
        };
        let ghost stored = p;
        put_in(&mut self.paths, p);
        assert(self.paths@ == put(old(self).paths@, stored));
        push(&mut self.desc, "\n");
        push(&mut self.desc, desc);
    }
}

} // verus!
