//! The player character: health, combat state and inventory.
use vstd::prelude::*;
use vstd::string::StringExecFns;
use rand::Rng;

use crate::entity::{
    Item, lookup, put, put_all, put_each, without, put_in, take_out, unique_keys, lemma_index_of, lemma_put_unique,
    lemma_put_all_unique, lemma_without_unique,
};
use crate::text::{decimal, push, push_int, same_text};

verus! {

/// Relies on `rand::Rng::gen_range` on the generator that `rand::thread_rng`
/// returns: a value in `[low, high)`. It panics when `low >= high`.
#[verifier::external_body]
fn random_in(low: i64, high: i64) -> (r: i64)
    requires
        low < high,
    ensures
        low <= r < high,
{
    rand::thread_rng().gen_range(low, high)
}

/// The least and greatest hit points one rest restores.
pub const HEAL_MIN: i32 = 1;
pub const HEAL_MAX: i32 = 6;

/// The least and greatest length of a rest, in milliseconds.
pub const REST_MIN_MS: u64 = 2000;
pub const REST_MAX_MS: u64 = 5000;

pub struct Player {
    /// Current and greatest hit points.
    pub hp: (i32, i32),
    pub in_combat: bool,
    /// The name of the equipped weapon.
    pub main_hand: Option<String>,
    /// The carried items, in the order they were taken.
    pub inventory: Vec<Item>,
}

/// The listing of item names, one per indented line.
pub open spec fn listing(s: Seq<Item>) -> Seq<char>
    decreases s.len(),
{
    if s.len() == 0 {
        Seq::empty()
    } else {
        listing(s.drop_last()) + "\n  "@ + s.last().name@
    }
}

/// What `inventory` reports for the carried items `s`.
pub open spec fn inventory_text(s: Seq<Item>) -> Seq<char> {
    if s.len() == 0 {
        "You are empty-handed."@
    } else {
        "You are carrying:"@ + listing(s)
    }
}

/// What `status` reports for hit points `cur` out of `cap`.
pub open spec fn status_text(cur: int, cap: int) -> Seq<char> {
    "You have ("@ + decimal(cur) + " / "@ + decimal(cap) + ") HP."@
}

/// The hit points after a rest that restores `regained` from `cur` below `cap`.
pub open spec fn healed(cur: int, cap: int, regained: int) -> int {
    if cur + regained < cap { cur + regained } else { cap }
}

/// The report of a rest that brought hit points to `now` out of `cap`,
/// `gained` more than before.
pub open spec fn rest_text(gained: int, now: int, cap: int) -> Seq<char> {
    "You regained "@ + decimal(gained) + " HP for a total of ("@ + decimal(now) + " / "@
        + decimal(cap) + ") HP."@
}

/// Whether `name` is one of the words by which the player means themself.
pub open spec fn is_self_word(name: Seq<char>) -> bool {
    name == "me"@ || name == "self"@ || name == "myself"@
}

impl Player {
    /// Whether hit points stay within the cap and inventory names are unique.
    pub open spec fn wf(&self) -> bool {
        self.hp.0 <= self.hp.1 && unique_keys(self.inventory@)
    }

    /// A player at full health, out of combat and empty-handed.
    pub fn new(hp_cap: i32) -> (r: Player)
        ensures
            r.wf(),
            r.hp == (hp_cap, hp_cap),
            !r.in_combat,
            r.main_hand is None,
            r.inventory@.len() == 0,
    {
        Player { hp: (hp_cap, hp_cap), in_combat: false, main_hand: None, inventory: Vec::new() }
    }

    pub fn hp(&self) -> (r: i32)
        ensures
            r == self.hp.0,
    {
        self.hp.0
    }

    pub fn hp_cap(&self) -> (r: i32)
        ensures
            r == self.hp.1,
    {
        self.hp.1
    }

    /// Readies the named carried item for a fight: when it is carried the
    /// player enters combat and its damage value, if any, comes back.
    pub fn attack(&mut self, weapon: &str) -> (r: Option<i32>)
        ensures
            r == (match lookup(old(self).inventory@, weapon@) {
                Some(it) => it.damage,
                None => None::<i32>,
            }),
            final(self).in_combat == (old(self).in_combat || lookup(old(self).inventory@, weapon@) is Some),
            final(self).hp == old(self).hp,
            final(self).main_hand == old(self).main_hand,
            final(self).inventory@ == old(self).inventory@,
    {
        let key = weapon.to_owned();
        proof {
            lemma_index_of(self.inventory@, key@);
        }
        match crate::entity::find(&self.inventory, &key) {
            Some(i) => {
                self.in_combat = true;
                self.inventory[i].damage
            },
            None => None,
        }
    }

    /// Rests with a heal amount drawn at random from `HEAL_MIN..=HEAL_MAX`.
    pub fn rest(&mut self) -> (r: String)
        ensures
            old(self).wf() ==> final(self).wf(),
            old(self).hp.0 < old(self).hp.1 ==> exists|n: int|
                HEAL_MIN <= n <= HEAL_MAX && final(self).hp.0 == healed(old(self).hp.0 as int, old(self).hp.1 as int, n),
            old(self).hp.0 >= old(self).hp.1 ==> final(self).hp == old(self).hp,
            old(self).hp.0 < old(self).hp.1 ==> old(self).hp.0 < final(self).hp.0 <= old(self).hp.0 + HEAL_MAX,
            final(self).hp.1 == old(self).hp.1,
            old(self).hp.0 <= final(self).hp.0,
            old(self).hp.0 <= old(self).hp.1 ==> final(self).hp.0 <= final(self).hp.1,
            final(self).in_combat == old(self).in_combat,
            final(self).main_hand == old(self).main_hand,
            final(self).inventory@ == old(self).inventory@,
            r@ == (if old(self).hp.0 < old(self).hp.1 {
                rest_text(final(self).hp.0 - old(self).hp.0, final(self).hp.0 as int, final(self).hp.1 as int)
            } else {
                "You already have full health."@
            }),
    {
        if self.hp.0 >= self.hp.1 {
            return "You already have full health.".to_owned();
        }
        let n = random_in(HEAL_MIN as i64, HEAL_MAX as i64 + 1) as i32;
        self.rest_with(n)
    }

    /// Rests, restoring `regained` hit points up to the cap; at full health
    /// nothing changes.
    pub fn rest_with(&mut self, regained: i32) -> (r: String)
        requires
            regained >= 1,
        ensures
            old(self).wf() ==> final(self).wf(),
            final(self).hp == (if old(self).hp.0 < old(self).hp.1 {
                (healed(old(self).hp.0 as int, old(self).hp.1 as int, regained as int) as i32, old(self).hp.1)
            } else {
                old(self).hp
            }),
            final(self).in_combat == old(self).in_combat,
            final(self).main_hand == old(self).main_hand,
            final(self).inventory@ == old(self).inventory@,
            r@ == (if old(self).hp.0 < old(self).hp.1 {
                rest_text(final(self).hp.0 - old(self).hp.0, final(self).hp.0 as int, final(self).hp.1 as int)
            } else {
                "You already have full health."@
            }),
    {
        let cur = self.hp.0;
        let cap = self.hp.1;
        if cur < cap {
            let now: i32 = if (cur as i64) + (regained as i64) < cap as i64 { cur + regained } else { cap };
            let gained: i32 = (now as i64 - cur as i64) as i32;
            self.hp = (now, cap);
            let mut s = "You regained ".to_owned();
            push_int(&mut s, gained);
            push(&mut s, " HP for a total of (");
            push_int(&mut s, now);
            push(&mut s, " / ");
            push_int(&mut s, cap);
            push(&mut s, ") HP.");
            s
        } else {
            "You already have full health.".to_owned()
        }
    }

    /// How long a rest takes, in milliseconds, drawn at random; nothing when
    /// already at full health.
    pub fn rest_cost(&self) -> (r: u64)
        ensures
            self.hp.0 >= self.hp.1 ==> r == 0,
            self.hp.0 < self.hp.1 ==> REST_MIN_MS <= r <= REST_MAX_MS,
    {
        if self.hp.0 < self.hp.1 {
            random_in(REST_MIN_MS as i64, REST_MAX_MS as i64 + 1) as u64
        } else {
            0
        }
    }

    /// Lists the carried items in the order they were taken.
    pub fn inventory(&self) -> (r: String)
        ensures
            r@ == inventory_text(self.inventory@),
    {
        if self.inventory.len() == 0 {
            return "You are empty-handed.".to_owned();
        }
        let mut s = "You are carrying:".to_owned();
        let mut i: usize = 0;
        while i < self.inventory.len()
            invariant
                i <= self.inventory@.len(),
                s@ == "You are carrying:"@ + listing(self.inventory@.take(i as int)),
            decreases self.inventory@.len() - i,
        {
            assert(self.inventory@.take(i + 1).drop_last() =~= self.inventory@.take(i as int));
            push(&mut s, "\n  ");
            push(&mut s, self.inventory[i].name.as_str());
            i = i + 1;
            assert(s@ =~= "You are carrying:"@ + listing(self.inventory@.take(i as int)));
        }
        assert(self.inventory@.take(i as int) =~= self.inventory@);
        s
    }

    pub fn status(&self) -> (r: String)
        ensures
            r@ == status_text(self.hp.0 as int, self.hp.1 as int),
    {
        let mut s = "You have (".to_owned();
        push_int(&mut s, self.hp.0);
        push(&mut s, " / ");
        push_int(&mut s, self.hp.1);
        push(&mut s, ") HP.");
        s
    }

    /// Loses `damage` hit points, with no floor.
    pub fn take_damage(&mut self, damage: i32)
        requires
            i32::MIN <= old(self).hp.0 - damage <= i32::MAX,
        ensures
            final(self).hp.0 == old(self).hp.0 - damage,
            final(self).hp.1 == old(self).hp.1,
            old(self).wf() && damage >= 0 ==> final(self).wf(),
            final(self).in_combat == old(self).in_combat,
            final(self).main_hand == old(self).main_hand,
            final(self).inventory@ == old(self).inventory@,
    {
        self.hp = (self.hp.0 - damage, self.hp.1);
    }

    /// Describes the player, for one of the words meaning the player, or a
    /// carried item.
    pub fn inspect(&self, name: &str) -> (r: Option<String>)
        ensures
            is_self_word(name@) ==> r is Some && r->Some_0@ == status_text(self.hp.0 as int, self.hp.1 as int),
            !is_self_word(name@) ==> match lookup(self.inventory@, name@) {
                Some(it) => r is Some && r->Some_0@ == it.inspection@,
                None => r is None,
            },
    {
        if same_text(name, "me") || same_text(name, "self") || same_text(name, "myself") {
            Some(self.status())
        } else {
            let key = name.to_owned();
            proof {
                lemma_index_of(self.inventory@, key@);
            }
            match crate::entity::find(&self.inventory, &key) {
                Some(i) => Some(self.inventory[i].inspection.clone()),
                None => None,
            }
        }
    }

    /// Puts a handed item into the inventory, replacing a carried item of
    /// the same name; without an item, says that there was none.
    pub fn take(&mut self, name: &str, item: Option<Item>) -> (r: String)
        ensures
            match item {
                Some(it) => final(self).inventory@ == put(old(self).inventory@, it) && r@ == "Taken."@,
                None => final(self).inventory@ == old(self).inventory@
                    && r@ == "There is no \""@ + name@ + "\" here."@,
            },
            final(self).hp == old(self).hp,
            final(self).in_combat == old(self).in_combat,
            final(self).main_hand == old(self).main_hand,
            old(self).wf() ==> final(self).wf(),
    {
        match item {
            Some(obj) => {
                proof {
                    if old(self).wf() {
                        lemma_put_unique(self.inventory@, obj);
                    }
                }
                put_in(&mut self.inventory, obj);
                "Taken.".to_owned()
            },
            None => {
                let mut s = "There is no \"".to_owned();
                push(&mut s, name);
                push(&mut s, "\" here.");
                s
            },
        }
    }

    /// Takes each of `items` in turn, each replacing a carried item of the
    /// same name.
    pub fn take_all(&mut self, items: Vec<Item>) -> (r: String)
        ensures
            final(self).inventory@ == put_all(old(self).inventory@, items@),
            final(self).hp == old(self).hp,
            final(self).in_combat == old(self).in_combat,
            final(self).main_hand == old(self).main_hand,
            r@ == "Taken."@,
            old(self).wf() ==> final(self).wf(),
    {
        proof {
            if old(self).wf() {
                lemma_put_all_unique(self.inventory@, items@);
            }
        }
        put_each(&mut self.inventory, items);
        "Taken.".to_owned()
    }

    /// Takes out and returns the named carried item.
    pub fn remove(&mut self, name: &str) -> (r: Option<Item>)
        ensures
            r == lookup(old(self).inventory@, name@),
            final(self).inventory@ == without(old(self).inventory@, name@),
            final(self).hp == old(self).hp,
            final(self).in_combat == old(self).in_combat,
            final(self).main_hand == old(self).main_hand,
            old(self).wf() ==> final(self).wf(),
    {
        let key = name.to_owned();
        proof {
            if old(self).wf() {
                lemma_without_unique(self.inventory@, key@);
            }
        }
        take_out(&mut self.inventory, &key)
    }

    /// Equipping is not available yet: says so and changes nothing.
    pub fn equip(&self, weapon: &str) -> (r: String)
        ensures
            r@ == "TODO: equip \""@ + weapon@ + "\""@,
    {
        let mut s = "TODO: equip \"".to_owned();
        push(&mut s, weapon);
        push(&mut s, "\"");
        s
    }
}

} // verus!
