//! The world: the room graph, the player's location in it, and every
//! command that acts on it.
use vstd::prelude::*;
use vstd::string::StringExecFns;

use crate::entity::{
    Enemy, Item, Named, Path, contains_key, find, index_of, items_wf, lemma_index_of, lookup, put,
    put_all, put_each, put_in, take_out, unique_keys, without, lemma_items_put, lemma_items_put_all,
    lemma_items_without,
};
use crate::room::{Room, room_text};
use crate::text::{decimal, push, push_int, same_text};

verus! {

/// A broken invariant of the graph itself, never a gameplay outcome.
#[derive(Debug, Clone, Copy, PartialEq, Eq, Structural)]
pub enum WorldError {
    /// The current room is not in the graph.
    NoRoom,
}

/// The outcome of a combat command: whether it took place, and its report.
#[derive(Debug)]
pub struct CmdResult {
    pub ok: bool,
    pub text: String,
}

impl CmdResult {
    pub fn new(ok: bool, text: String) -> (r: CmdResult)
        ensures
            r.ok == ok,
            r.text == text,
    {
        CmdResult { ok, text }
    }
}

pub struct World {
    /// The name of the room the player is in.
    pub curr_room: String,
    pub rooms: Vec<Room>,
}

/// Whether a room's paths, items and enemies have unique names, and every
/// item nests at most one level.
pub open spec fn room_wf(r: Room) -> bool {
    &&& unique_keys(r.paths@)
    &&& items_wf(r.items@)
    &&& unique_keys(r.enemies@)
    &&& forall|e: int| 0 <= e < r.enemies@.len() ==> items_wf(#[trigger] r.enemies@[e].loot@)
}

/// The position of the current room, or -1 when it is missing.
pub open spec fn cur_index(w: World) -> int {
    index_of(w.rooms@, w.curr_room@)
}

/// The current room; meaningful only when `cur_index(w) >= 0`.
pub open spec fn cur_room(w: World) -> Room {
    w.rooms@[cur_index(w)]
}

/// `b` holds the same rooms as `a`, but for the one at `i`.
pub open spec fn others_kept(a: Seq<Room>, b: Seq<Room>, i: int) -> bool {
    a.len() == b.len() && forall|j: int| 0 <= j < a.len() && j != i ==> b[j] == a[j]
}

/// `b` has the same paths as `a` going the same ways to the same rooms, with
/// flags that may differ.
pub open spec fn same_edges(a: Seq<Path>, b: Seq<Path>) -> bool {
    a.len() == b.len() && forall|j: int|
        0 <= j < a.len() ==> (#[trigger] b[j]).direction == a[j].direction && b[j].target == a[j].target
}

/// The path `p` with its `closed` flag set to `c`.
pub open spec fn with_closed(p: Path, c: bool) -> Path {
    Path { direction: p.direction, target: p.target, inspection: p.inspection, locked: p.locked, closed: c }
}

/// The enemy `e` with `hp` hit points.
pub open spec fn with_hp(e: Enemy, hp: i32) -> Enemy {
    Enemy { name: e.name, inspection: e.inspection, hp, loot: e.loot }
}

/// Hit points after a blow of `d`, kept within the range of `i32`.
pub open spec fn hit_hp(hp: int, d: int) -> int {
    let h = hp - d;
    if h < i32::MIN { i32::MIN as int } else if h > i32::MAX { i32::MAX as int } else { h }
}

/// The names of dropped loot, each after a space and before a comma.
pub open spec fn loot_listing(s: Seq<Item>) -> Seq<char>
    decreases s.len(),
{
    if s.len() == 0 {
        Seq::empty()
    } else {
        loot_listing(s.drop_last()) + " "@ + s.last().name@ + ","@
    }
}

/// The opening of every report of a blow.
pub open spec fn hit_text(enemy: Seq<char>, weapon: Seq<char>, d: int) -> Seq<char> {
    "You hit the "@ + enemy + " with your "@ + weapon + " for "@ + decimal(d) + " damage."@
}

/// The report of a killing blow on an enemy that carried `loot`.
pub open spec fn kill_text(enemy: Seq<char>, weapon: Seq<char>, d: int, loot: Seq<Item>) -> Seq<char> {
    hit_text(enemy, weapon, d) + " It is dead.\n"@ + (if loot.len() == 0 {
        Seq::empty()
    } else {
        "It dropped:\n"@ + loot_listing(loot)
    })
}

/// The text `inspect` finds under `name` in room `r`: an item first, then a
/// path, then an enemy.
pub open spec fn inspection_in(r: Room, name: Seq<char>) -> Option<Seq<char>> {
    if contains_key(r.items@, name) {
        Some(r.items@[index_of(r.items@, name)].inspection@)
    } else if contains_key(r.paths@, name) {
        Some(r.paths@[index_of(r.paths@, name)].inspection@)
    } else if contains_key(r.enemies@, name) {
        Some(r.enemies@[index_of(r.enemies@, name)].inspection@)
    } else {
        None
    }
}

/// Paths with the same directions as uniquely named ones are uniquely named.
pub proof fn lemma_same_edges_unique(a: Seq<Path>, b: Seq<Path>)
    requires
        unique_keys(a),
        same_edges(a, b),
    ensures
        unique_keys(b),
{
    assert forall|x: int, y: int| 0 <= x < b.len() && 0 <= y < b.len() && x != y implies
        (#[trigger] b[x]).key() != (#[trigger] b[y]).key() by {
        assert(b[x].direction == a[x].direction);
        assert(b[y].direction == a[y].direction);
    }
}

/// A change confined to one room that keeps its name and the ends of its
/// paths, and leaves it well formed, keeps the world well formed.
pub proof fn lemma_edges_kept(a: World, b: World, i: int)
    requires
        a.wf(),
        0 <= i < a.rooms@.len(),
        b.curr_room == a.curr_room,
        others_kept(a.rooms@, b.rooms@, i),
        b.rooms@[i].name == a.rooms@[i].name,
        same_edges(a.rooms@[i].paths@, b.rooms@[i].paths@),
        room_wf(b.rooms@[i]),
    ensures
        b.wf(),
{
    assert forall|k: Seq<char>| contains_key(a.rooms@, k) implies contains_key(b.rooms@, k) by {
        let w = choose|w: int| 0 <= w < a.rooms@.len() && (#[trigger] a.rooms@[w]).key() == k;
        assert(b.rooms@[w].key() == k);
    }
    assert forall|x: int, y: int| 0 <= x < b.rooms@.len() && 0 <= y < b.rooms@.len() && x != y implies
        (#[trigger] b.rooms@[x]).key() != (#[trigger] b.rooms@[y]).key() by {
        assert(b.rooms@[x].key() == a.rooms@[x].key());
        assert(b.rooms@[y].key() == a.rooms@[y].key());
    }
    assert forall|x: int, y: int| 0 <= x < b.rooms@.len() && 0 <= y < b.rooms@[x].paths@.len() implies
        contains_key(b.rooms@, (#[trigger] b.rooms@[x].paths@[y]).target@) by {
        assert(b.rooms@[x].paths@[y].target == a.rooms@[x].paths@[y].target);
        assert(contains_key(a.rooms@, a.rooms@[x].paths@[y].target@));
    }
    assert forall|x: int| 0 <= x < b.rooms@.len() implies room_wf(#[trigger] b.rooms@[x]) by {
        if x != i {
            assert(b.rooms@[x] == a.rooms@[x]);
        }
    }
}

/// `b` differs from `a` at most in the items of the room at `i`.
pub open spec fn items_changed(a: World, b: World, i: int) -> bool {
    &&& b.curr_room == a.curr_room
    &&& others_kept(a.rooms@, b.rooms@, i)
    &&& b.rooms@[i].name == a.rooms@[i].name
    &&& b.rooms@[i].desc == a.rooms@[i].desc
    &&& b.rooms@[i].paths == a.rooms@[i].paths
    &&& b.rooms@[i].enemies == a.rooms@[i].enemies
}

/// `b` is the item `a` holding `contents` instead of what it held.
pub open spec fn refilled(a: Item, b: Item, contents: Seq<Item>) -> bool {
    &&& b.name == a.name
    &&& b.desc == a.desc
    &&& b.inspection == a.inspection
    &&& b.damage == a.damage
    &&& b.contents is Some
    &&& b.contents->Some_0@ == contents
}

/// `b` differs from `a` at most in the items and enemies of the room at `i`.
pub open spec fn fight_changed(a: World, b: World, i: int) -> bool {
    &&& b.curr_room == a.curr_room
    &&& others_kept(a.rooms@, b.rooms@, i)
    &&& b.rooms@[i].name == a.rooms@[i].name
    &&& b.rooms@[i].desc == a.rooms@[i].desc
    &&& b.rooms@[i].paths == a.rooms@[i].paths
}

/// A change to the items of one room that leaves them well formed keeps the
/// world well formed.
pub proof fn lemma_items_kept(a: World, b: World, i: int)
    requires
        a.wf(),
        0 <= i < a.rooms@.len(),
        items_changed(a, b, i),
        items_wf(b.rooms@[i].items@),
    ensures
        b.wf(),
{
    assert(room_wf(a.rooms@[i]));
    lemma_edges_kept(a, b, i);
}

impl World {
    /// Whether room names are unique, the current room and every path's
    /// target are rooms of the graph, and each room is well formed.
    pub open spec fn wf(&self) -> bool {
        &&& unique_keys(self.rooms@)
        &&& contains_key(self.rooms@, self.curr_room@)
        &&& forall|i: int, j: int|
            0 <= i < self.rooms@.len() && 0 <= j < self.rooms@[i].paths@.len() ==> contains_key(
                self.rooms@,
                (#[trigger] self.rooms@[i].paths@[j]).target@,
            )
        &&& forall|i: int| 0 <= i < self.rooms@.len() ==> room_wf(#[trigger] self.rooms@[i])
    }

    pub fn new(curr_room: &str, rooms: Vec<Room>) -> (r: World)
        ensures
            r.curr_room@ == curr_room@,
            r.rooms@ == rooms@,
    {
        World { curr_room: curr_room.to_owned(), rooms }
    }

    pub fn curr_room(&self) -> (r: String)
        ensures
            r@ == self.curr_room@,
    {
        self.curr_room.clone()
    }

    /// The rooms, for a loader to fill.
    pub fn rooms_mut(&mut self) -> (r: &mut Vec<Room>)
        ensures
            *r == old(self).rooms,
            final(self).curr_room == old(self).curr_room,
            final(self).rooms == *final(r),
    {
        &mut self.rooms
    }

    fn current(&self) -> (r: Option<usize>)
        ensures
            match r {
                Some(i) => i as int == cur_index(*self) && 0 <= i < self.rooms@.len()
                    && self.rooms@[i as int].name@ == self.curr_room@,
                None => cur_index(*self) == -1 && !contains_key(self.rooms@, self.curr_room@),
            },
    {
        proof {
            lemma_index_of(self.rooms@, self.curr_room@);
        }
        find(&self.rooms, &self.curr_room)
    }

    /// Describes the current room.
    pub fn look(&self) -> (r: Result<String, WorldError>)
        ensures
            cur_index(*self) >= 0 ==> r is Ok && r->Ok_0@ == room_text(cur_room(*self)),
            cur_index(*self) < 0 ==> r == Err::<String, WorldError>(WorldError::NoRoom),
            self.wf() ==> r is Ok,
    {
        proof {
            lemma_index_of(self.rooms@, self.curr_room@);
        }
        match self.current() {
            Some(i) => Ok(self.rooms[i].desc()),
            None => Err(WorldError::NoRoom),
        }
    }

    /// Finds the inspection text of an item, path or enemy of the current
    /// room, in that order.
    pub fn inspect(&self, name: &str) -> (r: Option<String>)
        ensures
            cur_index(*self) < 0 ==> r is None,
            cur_index(*self) >= 0 ==> match inspection_in(cur_room(*self), name@) {
                Some(t) => r is Some && r->Some_0@ == t,
                None => r is None,
            },
    {
        let key = name.to_owned();
        match self.current() {
            Some(i) => {
                let room = &self.rooms[i];
                proof {
                    lemma_index_of(room.items@, key@);
                    lemma_index_of(room.paths@, key@);
                    lemma_index_of(room.enemies@, key@);
                }
                if let Some(j) = find(&room.items, &key) {
                    Some(room.items[j].inspection.clone())
                } else if let Some(j) = find(&room.paths, &key) {
                    Some(room.paths[j].inspection.clone())
                } else if let Some(j) = find(&room.enemies, &key) {
                    Some(room.enemies[j].inspection.clone())
                } else {
                    None
                }
            },
            None => None,
        }
    }

    /// Follows the path in `direction` out of the current room, unless there
    /// is none or it is locked or closed; the graph itself never changes.
    pub fn move_room(&mut self, direction: &str) -> (r: Result<String, WorldError>)
        ensures
            final(self).rooms@ == old(self).rooms@,
            cur_index(*old(self)) < 0 ==> r == Err::<String, WorldError>(WorldError::NoRoom)
                && final(self).curr_room == old(self).curr_room,
            cur_index(*old(self)) >= 0 ==> {
                let paths = cur_room(*old(self)).paths@;
                let p = paths[index_of(paths, direction@)];
                if !contains_key(paths, direction@) {
                    r is Ok && r->Ok_0@ == "You cannot go that way."@
                        && final(self).curr_room == old(self).curr_room
                } else if p.locked {
                    r is Ok && r->Ok_0@ == "The way is locked."@
                        && final(self).curr_room == old(self).curr_room
                } else if p.closed {
                    r is Ok && r->Ok_0@ == "The way is closed."@
                        && final(self).curr_room == old(self).curr_room
                } else {
                    &&& final(self).curr_room@ == p.target@
                    &&& cur_index(*final(self)) >= 0 ==> r is Ok && r->Ok_0@ == room_text(cur_room(*final(self)))
                    &&& cur_index(*final(self)) < 0 ==> r == Err::<String, WorldError>(WorldError::NoRoom)
                }
            },
            old(self).wf() ==> final(self).wf() && r is Ok,
    {
        let key = direction.to_owned();
        match self.current() {
            Some(i) => {
                proof {
                    lemma_index_of(self.rooms@[i as int].paths@, key@);
                }
                match find(&self.rooms[i].paths, &key) {
                    Some(j) => {
                        if self.rooms[i].paths[j].locked {
                            Ok("The way is locked.".to_owned())
                        } else if self.rooms[i].paths[j].closed {
                            Ok("The way is closed.".to_owned())
                        } else {
                            proof {
                                if old(self).wf() {
                                    assert(contains_key(self.rooms@, self.rooms@[i as int].paths@[j as int].target@));
                                }
                            }
                            self.curr_room = self.rooms[i].paths[j].target.clone();
                            self.look()
                        }
                    },
                    None => Ok("You cannot go that way.".to_owned()),
                }
            },
            None => Err(WorldError::NoRoom),
        }
    }

    /// Opens the named closed path of the current room.
    pub fn open_path(&mut self, path: &str) -> (r: Result<String, WorldError>)
        ensures
            final(self).curr_room == old(self).curr_room,
            cur_index(*old(self)) < 0 ==> r == Err::<String, WorldError>(WorldError::NoRoom)
                && final(self).rooms@ == old(self).rooms@,
            cur_index(*old(self)) >= 0 ==> {
                let i = cur_index(*old(self));
                let room = cur_room(*old(self));
                let j = index_of(room.paths@, path@);
                if !contains_key(room.paths@, path@) {
                    r is Ok && r->Ok_0@ == "There is no \""@ + path@ + "\"."@
                        && final(self).rooms@ == old(self).rooms@
                } else if !room.paths@[j].closed {
                    r is Ok && r->Ok_0@ == "The "@ + path@ + " is already opened."@
                        && final(self).rooms@ == old(self).rooms@
                } else {
                    &&& r is Ok && r->Ok_0@ == "Opened."@
                    &&& others_kept(old(self).rooms@, final(self).rooms@, i)
                    &&& final(self).rooms@[i].name == room.name
                    &&& final(self).rooms@[i].desc == room.desc
                    &&& final(self).rooms@[i].items == room.items
                    &&& final(self).rooms@[i].enemies == room.enemies
                    &&& final(self).rooms@[i].paths@ == room.paths@.update(j, with_closed(room.paths@[j], false))
                }
            },
            old(self).wf() ==> final(self).wf(),
    {
        self.set_closed(path, false)
    }

    /// Closes the named open path of the current room.
    pub fn close_path(&mut self, path: &str) -> (r: Result<String, WorldError>)
        ensures
            final(self).curr_room == old(self).curr_room,
            cur_index(*old(self)) < 0 ==> r == Err::<String, WorldError>(WorldError::NoRoom)
                && final(self).rooms@ == old(self).rooms@,
            cur_index(*old(self)) >= 0 ==> {
                let i = cur_index(*old(self));
                let room = cur_room(*old(self));
                let j = index_of(room.paths@, path@);
                if !contains_key(room.paths@, path@) {
                    r is Ok && r->Ok_0@ == "There is no \""@ + path@ + "\"."@
                        && final(self).rooms@ == old(self).rooms@
                } else if room.paths@[j].closed {
                    r is Ok && r->Ok_0@ == "The "@ + path@ + " is already closed."@
                        && final(self).rooms@ == old(self).rooms@
                } else {
                    &&& r is Ok && r->Ok_0@ == "Closed."@
                    &&& others_kept(old(self).rooms@, final(self).rooms@, i)
                    &&& final(self).rooms@[i].name == room.name
                    &&& final(self).rooms@[i].desc == room.desc
                    &&& final(self).rooms@[i].items == room.items
                    &&& final(self).rooms@[i].enemies == room.enemies
                    &&& final(self).rooms@[i].paths@ == room.paths@.update(j, with_closed(room.paths@[j], true))
                }
            },
            old(self).wf() ==> final(self).wf(),
    {
        self.set_closed(path, true)
    }

    fn set_closed(&mut self, path: &str, closed: bool) -> (r: Result<String, WorldError>)
        ensures
            final(self).curr_room == old(self).curr_room,
            cur_index(*old(self)) < 0 ==> r == Err::<String, WorldError>(WorldError::NoRoom)
                && final(self).rooms@ == old(self).rooms@,
            cur_index(*old(self)) >= 0 ==> {
                let i = cur_index(*old(self));
                let room = cur_room(*old(self));
                let j = index_of(room.paths@, path@);
                if !contains_key(room.paths@, path@) {
                    r is Ok && r->Ok_0@ == "There is no \""@ + path@ + "\"."@
                        && final(self).rooms@ == old(self).rooms@
                } else if room.paths@[j].closed == closed {
                    r is Ok && r->Ok_0@ == "The "@ + path@ + (if closed { " is already closed."@ } else { " is already opened."@ })
                        && final(self).rooms@ == old(self).rooms@
                } else {
                    &&& r is Ok && r->Ok_0@ == (if closed { "Closed."@ } else { "Opened."@ })
                    &&& others_kept(old(self).rooms@, final(self).rooms@, i)
                    &&& final(self).rooms@[i].name == room.name
                    &&& final(self).rooms@[i].desc == room.desc
                    &&& final(self).rooms@[i].items == room.items
                    &&& final(self).rooms@[i].enemies == room.enemies
                    &&& final(self).rooms@[i].paths@ == room.paths@.update(j, with_closed(room.paths@[j], closed))
                }
            },
            old(self).wf() ==> final(self).wf(),
    {
        let key = path.to_owned();
        match self.current() {
            Some(i) => {
                proof {
                    lemma_index_of(self.rooms@[i as int].paths@, key@);
                }
                match find(&self.rooms[i].paths, &key) {
                    Some(j) => {
                        if self.rooms[i].paths[j].closed == closed {
                            let mut s = "The ".to_owned();
                            push(&mut s, path);
                            if closed {
                                push(&mut s, " is already closed.");
                            } else {
                                push(&mut s, " is already opened.");
                            }
                            Ok(s)
                        } else {
                            self.rooms[i].paths[j].closed = closed;
                            proof {
                                if old(self).wf() {
                                    let a = old(self).rooms@[i as int].paths@;
                                    let b = self.rooms@[i as int].paths@;
                                    assert(room_wf(old(self).rooms@[i as int]));
                                    assert(same_edges(a, b));
                                    lemma_same_edges_unique(a, b);
                                    lemma_edges_kept(*old(self), *self, i as int);
                                }
                            }
                            if closed {
                                Ok("Closed.".to_owned())
                            } else {
                                Ok("Opened.".to_owned())
                            }
                        }
                    },
                    None => {
                        let mut s = "There is no \"".to_owned();
                        push(&mut s, path);
                        push(&mut s, "\".");
                        Ok(s)
                    },
                }
            },
            None => Err(WorldError::NoRoom),
        }
    }

    /// Takes out and returns the named item of the current room.
    pub fn give(&mut self, name: &str) -> (r: Option<Item>)
        ensures
            cur_index(*old(self)) < 0 ==> r is None && *final(self) == *old(self),
            cur_index(*old(self)) >= 0 ==> {
                let i = cur_index(*old(self));
                &&& r == lookup(cur_room(*old(self)).items@, name@)
                &&& items_changed(*old(self), *final(self), i)
                &&& final(self).rooms@[i].items@ == without(cur_room(*old(self)).items@, name@)
            },
            old(self).wf() ==> final(self).wf() && (r is Some ==> r->Some_0.wf()),
    {
        let key = name.to_owned();
        match self.current() {
            Some(i) => {
                let r = take_out(&mut self.rooms[i].items, &key);
                proof {
                    if old(self).wf() {
                        assert(room_wf(old(self).rooms@[i as int]));
                        lemma_items_without(old(self).rooms@[i as int].items@, key@);
                        lemma_items_kept(*old(self), *self, i as int);
                    }
                }
                r
            },
            None => None,
        }
    }

    /// Takes out and returns the named item from inside the named container
    /// of the current room.
    pub fn give_from(&mut self, item: &str, container: &str) -> (r: Option<Item>)
        ensures
            final(self).curr_room == old(self).curr_room,
            ({
                let room = cur_room(*old(self));
                let ci = index_of(room.items@, container@);
                if cur_index(*old(self)) < 0 || !contains_key(room.items@, container@)
                    || room.items@[ci].contents is None {
                    r is None && final(self).rooms@ == old(self).rooms@
                } else {
                    let i = cur_index(*old(self));
                    let contents = room.items@[ci].contents->Some_0@;
                    &&& r == lookup(contents, item@)
                    &&& items_changed(*old(self), *final(self), i)
                    &&& final(self).rooms@[i].items@.len() == room.items@.len()
                    &&& forall|k: int| 0 <= k < room.items@.len() && k != ci
                        ==> final(self).rooms@[i].items@[k] == room.items@[k]
                    &&& refilled(room.items@[ci], final(self).rooms@[i].items@[ci], without(contents, item@))
                }
            }),
            old(self).wf() ==> final(self).wf() && (r is Some ==> r->Some_0.wf()),
    {
        let key = item.to_owned();
        let ckey = container.to_owned();
        match self.current() {
            Some(i) => {
                proof {
                    lemma_index_of(self.rooms@[i as int].items@, ckey@);
                }
                match find(&self.rooms[i].items, &ckey) {
                    Some(ci) => {
                        if self.rooms[i].items[ci].contents.is_none() {
                            return None;
                        }
                        let mut held: Option<Vec<Item>> = None;
                        std::mem::swap(&mut held, &mut self.rooms[i].items[ci].contents);
                        match held {
                            Some(mut c) => {
                                let ghost before = c@;
                                let r = take_out(&mut c, &key);
                                self.rooms[i].items[ci].contents = Some(c);
                                proof {
                                    if old(self).wf() {
                                        let items0 = old(self).rooms@[i as int].items@;
                                        let items1 = self.rooms@[i as int].items@;
                                        assert(room_wf(old(self).rooms@[i as int]));
                                        assert(items0[ci as int].wf());
                                        lemma_items_without(before, key@);
                                        lemma_index_of(before, key@);
                                        let left = without(before, key@);
                                        let at = index_of(before, key@);
                                        assert forall|j: int| 0 <= j < left.len() implies (#[trigger] left[j]).contents is None by {
                                            if at >= 0 {
                                                let j2 = if j < at { j } else { j + 1 };
                                                assert(left[j] == before[j2]);
                                            }
                                        }
                                        assert(items1[ci as int].wf());
                                        assert forall|x: int, y: int| 0 <= x < items1.len() && 0 <= y < items1.len() && x != y
                                            implies (#[trigger] items1[x]).key() != (#[trigger] items1[y]).key() by {
                                            assert(items1[x].key() == items0[x].key());
                                            assert(items1[y].key() == items0[y].key());
                                        }
                                        assert forall|x: int| 0 <= x < items1.len() implies (#[trigger] items1[x]).wf() by {
                                            if x != ci {
                                                assert(items1[x] == items0[x]);
                                            }
                                        }
                                        lemma_items_kept(*old(self), *self, i as int);
                                        if at >= 0 {
                                            assert(before[at].contents is None);
                                        }
                                    }
                                }
                                r
                            },
                            None => None,
                        }
                    },
                    None => None,
                }
            },
            None => None,
        }
    }

    /// Empties the current room of items and returns them all, in order.
    pub fn give_all(&mut self) -> (r: Vec<Item>)
        ensures
            cur_index(*old(self)) < 0 ==> r@.len() == 0 && *final(self) == *old(self),
            cur_index(*old(self)) >= 0 ==> {
                let i = cur_index(*old(self));
                &&& r@ == cur_room(*old(self)).items@
                &&& items_changed(*old(self), *final(self), i)
                &&& final(self).rooms@[i].items@.len() == 0
            },
            old(self).wf() ==> final(self).wf(),
    {
        match self.current() {
            Some(i) => {
                let mut all: Vec<Item> = Vec::new();
                std::mem::swap(&mut all, &mut self.rooms[i].items);
                proof {
                    if old(self).wf() {
                        lemma_items_kept(*old(self), *self, i as int);
                    }
                }
                all
            },
            None => Vec::new(),
        }
    }

    /// Puts a handed item into the current room; without an item, says that
    /// the player does not have it.
    pub fn insert(&mut self, cmd: &str, name: &str, item: Option<Item>) -> (r: Result<String, WorldError>)
        ensures
            cur_index(*old(self)) < 0 ==> r == Err::<String, WorldError>(WorldError::NoRoom)
                && *final(self) == *old(self),
            cur_index(*old(self)) >= 0 ==> match item {
                None => r is Ok && r->Ok_0@ == "You do not have the \""@ + name@ + "\"."@
                    && *final(self) == *old(self),
                Some(it) => {
                    let i = cur_index(*old(self));
                    &&& r is Ok
                    &&& r->Ok_0@ == (if cmd@ == "throw"@ {
                        "You throw the "@ + name@ + " across the room."@
                    } else {
                        "Dropped."@
                    })
                    &&& items_changed(*old(self), *final(self), i)
                    &&& final(self).rooms@[i].items@ == put(cur_room(*old(self)).items@, it)
                },
            },
            old(self).wf() && (item is Some ==> item->Some_0.wf()) ==> final(self).wf(),
    {
        match self.current() {
            Some(i) => match item {
                Some(obj) => {
                    let ghost it = obj;
                    put_in(&mut self.rooms[i].items, obj);
                    proof {
                        if old(self).wf() && it.wf() {
                            assert(room_wf(old(self).rooms@[i as int]));
                            lemma_items_put(old(self).rooms@[i as int].items@, it);
                            lemma_items_kept(*old(self), *self, i as int);
                        }
                    }
                    if same_text(cmd, "throw") {
                        let mut s = "You throw the ".to_owned();
                        push(&mut s, name);
                        push(&mut s, " across the room.");
                        Ok(s)
                    } else {
                        Ok("Dropped.".to_owned())
                    }
                },
                None => {
                    let mut s = "You do not have the \"".to_owned();
                    push(&mut s, name);
                    push(&mut s, "\".");
                    Ok(s)
                },
            },
            None => Err(WorldError::NoRoom),
        }
    }

    /// Puts a handed item into the named container of the current room. A
    /// container holds no other container.
    pub fn insert_into(&mut self, name: &str, container: &str, item: Option<Item>) -> (r: Result<String, WorldError>)
        ensures
            final(self).curr_room == old(self).curr_room,
            ({
                let room = cur_room(*old(self));
                let ci = index_of(room.items@, container@);
                if cur_index(*old(self)) < 0 {
                    r == Err::<String, WorldError>(WorldError::NoRoom) && final(self).rooms@ == old(self).rooms@
                } else if item is None {
                    r is Ok && r->Ok_0@ == "You do not have the \""@ + name@ + "\"."@
                        && final(self).rooms@ == old(self).rooms@
                } else if !contains_key(room.items@, container@) {
                    r is Ok && r->Ok_0@ == "There is no \""@ + container@ + "\" here."@
                        && final(self).rooms@ == old(self).rooms@
                } else if room.items@[ci].contents is None {
                    r is Ok && r->Ok_0@ == "You can not put anything in there."@
                        && final(self).rooms@ == old(self).rooms@
                } else if item->Some_0.contents is Some {
                    r is Ok && r->Ok_0@ == "A container does not fit in there."@
                        && final(self).rooms@ == old(self).rooms@
                } else {
                    let i = cur_index(*old(self));
                    let contents = room.items@[ci].contents->Some_0@;
                    &&& r is Ok && r->Ok_0@ == "Placed."@
                    &&& items_changed(*old(self), *final(self), i)
                    &&& final(self).rooms@[i].items@.len() == room.items@.len()
                    &&& forall|k: int| 0 <= k < room.items@.len() && k != ci
                        ==> final(self).rooms@[i].items@[k] == room.items@[k]
                    &&& refilled(room.items@[ci], final(self).rooms@[i].items@[ci], put(contents, item->Some_0))
                }
            }),
            old(self).wf() ==> final(self).wf(),
    {
        let ckey = container.to_owned();
        let i = match self.current() {
            Some(i) => i,
            None => {
                return Err(WorldError::NoRoom);
            },
        };
        let obj = match item {
            Some(obj) => obj,
            None => {
                let mut s = "You do not have the \"".to_owned();
                push(&mut s, name);
                push(&mut s, "\".");
                return Ok(s);
            },
        };
        proof {
            lemma_index_of(self.rooms@[i as int].items@, ckey@);
        }
        let ci = match find(&self.rooms[i].items, &ckey) {
            Some(ci) => ci,
            None => {
                let mut s = "There is no \"".to_owned();
                push(&mut s, container);
                push(&mut s, "\" here.");
                return Ok(s);
            },
        };
        if self.rooms[i].items[ci].contents.is_none() {
            return Ok("You can not put anything in there.".to_owned());
        }
        if obj.contents.is_some() {
            return Ok("A container does not fit in there.".to_owned());
        }
        let mut held: Option<Vec<Item>> = None;
        std::mem::swap(&mut held, &mut self.rooms[i].items[ci].contents);
        match held {
            Some(mut c) => {
                let ghost before = c@;
                let ghost it = obj;
                put_in(&mut c, obj);
                self.rooms[i].items[ci].contents = Some(c);
                proof {
                    if old(self).wf() {
                        let items0 = old(self).rooms@[i as int].items@;
                        let items1 = self.rooms@[i as int].items@;
                        assert(room_wf(old(self).rooms@[i as int]));
                        assert(items0[ci as int].wf());
                        crate::entity::lemma_put_unique(before, it);
                        lemma_index_of(before, it.key());
                        let now = put(before, it);
                        assert forall|j: int| 0 <= j < now.len() implies (#[trigger] now[j]).contents is None by {
                            if j < before.len() && j != index_of(before, it.key()) {
                                assert(now[j] == before[j]);
                            }
                        }
                        assert(items1[ci as int].wf());
                        assert forall|x: int, y: int| 0 <= x < items1.len() && 0 <= y < items1.len() && x != y
                            implies (#[trigger] items1[x]).key() != (#[trigger] items1[y]).key() by {
                            assert(items1[x].key() == items0[x].key());
                            assert(items1[y].key() == items0[y].key());
                        }
                        assert forall|x: int| 0 <= x < items1.len() implies (#[trigger] items1[x]).wf() by {
                            if x != ci {
                                assert(items1[x] == items0[x]);
                            }
                        }
                        lemma_items_kept(*old(self), *self, i as int);
                    }
                }
                Ok("Placed.".to_owned())
            },
            None => Ok("You can not put anything in there.".to_owned()),
        }
    }

    /// Deals `damage` to the named enemy of the current room; a missing enemy
    /// is reported before a missing weapon. An enemy left
    /// without hit points dies: it leaves the room and its loot is dropped
    /// into the room, once.
    pub fn harm_enemy(&mut self, enemy: &str, weapon: &str, damage: Option<i32>) -> (r: Result<CmdResult, WorldError>)
        ensures
            ({
                let room = cur_room(*old(self));
                let ei = index_of(room.enemies@, enemy@);
                let e = room.enemies@[ei];
                if cur_index(*old(self)) < 0 {
                    r is Err && r->Err_0 == WorldError::NoRoom && *final(self) == *old(self)
                } else if !contains_key(room.enemies@, enemy@) {
                    r is Ok && !r->Ok_0.ok && r->Ok_0.text@ == "There is no \""@ + enemy@ + "\" here."@
                        && *final(self) == *old(self)
                } else if damage is None {
                    r is Ok && !r->Ok_0.ok && r->Ok_0.text@ == "You do not have the \""@ + weapon@ + "\"."@
                        && *final(self) == *old(self)
                } else {
                    let i = cur_index(*old(self));
                    let d = damage->Some_0;
                    let h = hit_hp(e.hp as int, d as int);
                    let after = final(self).rooms@[i];
                    &&& r is Ok && r->Ok_0.ok
                    &&& fight_changed(*old(self), *final(self), i)
                    &&& h > 0 ==> {
                        &&& r->Ok_0.text@ == hit_text(enemy@, weapon@, d as int)
                        &&& after.enemies@ == room.enemies@.update(ei, with_hp(e, h as i32))
                        &&& after.items == room.items
                    }
                    &&& h <= 0 ==> {
                        &&& r->Ok_0.text@ == kill_text(enemy@, weapon@, d as int, e.loot@)
                        &&& after.enemies@ == without(room.enemies@, enemy@)
                        &&& after.items@ == put_all(room.items@, e.loot@)
                    }
                }
            }),
            old(self).wf() ==> final(self).wf(),
    {
        let i = match self.current() {
            Some(i) => i,
            None => {
                return Err(WorldError::NoRoom);
            },
        };
        let ekey = enemy.to_owned();
        proof {
            lemma_index_of(self.rooms@[i as int].enemies@, ekey@);
        }
        let ei = match find(&self.rooms[i].enemies, &ekey) {
            Some(ei) => ei,
            None => {
                let mut s = "There is no \"".to_owned();
                push(&mut s, enemy);
                push(&mut s, "\" here.");
                return Ok(CmdResult::new(false, s));
            },
        };
        let d = match damage {
            Some(d) => d,
            None => {
                let mut s = "You do not have the \"".to_owned();
                push(&mut s, weapon);
                push(&mut s, "\".");
                return Ok(CmdResult::new(false, s));
            },
        };
        let left: i64 = self.rooms[i].enemies[ei].hp as i64 - d as i64;
        let h: i32 = if left < i32::MIN as i64 {
            i32::MIN
        } else if left > i32::MAX as i64 {
            i32::MAX
        } else {
            left as i32
        };
        let mut s = "You hit the ".to_owned();
        push(&mut s, enemy);
        push(&mut s, " with your ");
        push(&mut s, weapon);
        push(&mut s, " for ");
        push_int(&mut s, d);
        push(&mut s, " damage.");
        if h > 0 {
            self.rooms[i].enemies[ei].hp = h;
            proof {
                if old(self).wf() {
                    let e0 = old(self).rooms@[i as int].enemies@;
                    let e1 = self.rooms@[i as int].enemies@;
                    assert(room_wf(old(self).rooms@[i as int]));
                    assert forall|x: int, y: int| 0 <= x < e1.len() && 0 <= y < e1.len() && x != y
                        implies (#[trigger] e1[x]).key() != (#[trigger] e1[y]).key() by {
                        assert(e1[x].key() == e0[x].key());
                        assert(e1[y].key() == e0[y].key());
                    }
                    assert forall|x: int| 0 <= x < e1.len() implies items_wf(#[trigger] e1[x].loot@) by {
                        assert(e1[x].loot == e0[x].loot);
                    }
                    lemma_edges_kept(*old(self), *self, i as int);
                }
            }
            assert(self.rooms@[i as int].enemies@ =~= old(self).rooms@[i as int].enemies@.update(
                ei as int,
                with_hp(old(self).rooms@[i as int].enemies@[ei as int], h),
            ));
            Ok(CmdResult::new(true, s))
        } else {
            push(&mut s, " It is dead.\n");
            let dead = self.rooms[i].enemies.remove(ei);
            if dead.loot.len() > 0 {
                push(&mut s, "It dropped:\n");
                let ghost head = s@;
                let mut k: usize = 0;
                while k < dead.loot.len()
                    invariant
                        k <= dead.loot@.len(),
                        s@ == head + loot_listing(dead.loot@.take(k as int)),
                    decreases dead.loot@.len() - k,
                {
                    assert(dead.loot@.take(k + 1).drop_last() =~= dead.loot@.take(k as int));
                    push(&mut s, " ");
                    push(&mut s, dead.loot[k].name.as_str());
                    push(&mut s, ",");
                    k = k + 1;
                    assert(s@ =~= head + loot_listing(dead.loot@.take(k as int)));
                }
                assert(dead.loot@.take(k as int) =~= dead.loot@);
            }
            let ghost loot = dead.loot@;
            put_each(&mut self.rooms[i].items, dead.loot);
            proof {
                if old(self).wf() {
                    let room0 = old(self).rooms@[i as int];
                    let e0 = room0.enemies@;
                    let e1 = self.rooms@[i as int].enemies@;
                    assert(room_wf(room0));
                    crate::entity::lemma_without_unique(e0, ekey@);
                    assert(items_wf(loot));
                    lemma_items_put_all(room0.items@, loot);
                    assert forall|x: int| 0 <= x < e1.len() implies items_wf(#[trigger] e1[x].loot@) by {
                        let x2 = if x < ei { x } else { x + 1 };
                        assert(e1[x] == e0[x2]);
                    }
                    lemma_edges_kept(*old(self), *self, i as int);
                }
            }
            Ok(CmdResult::new(true, s))
        }
    }
}

} // verus!
