//! The things that populate the world: items, enemies and paths, and the
//! name-keyed collections that hold them in insertion order.
use vstd::prelude::*;

verus! {

/// Something stored in a collection under a name.
pub trait Named {
    spec fn key(&self) -> Seq<char>;

    fn name_ref(&self) -> (r: &String)
        ensures
            r@ == self.key(),
    ;
}

/// A named object; a weapon when it has a damage value, a container when it
/// has contents.
#[derive(Debug)]
pub struct Item {
    pub name: String,
    /// The line this item adds to a room's description.
    pub desc: String,
    /// The text shown when the item is inspected.
    pub inspection: String,
    pub damage: Option<i32>,
    pub contents: Option<Vec<Item>>,
}

/// A combatant with hit points and the items it drops when it dies.
#[derive(Debug)]
pub struct Enemy {
    pub name: String,
    pub inspection: String,
    pub hp: i32,
    pub loot: Vec<Item>,
}

/// A directed edge out of a room, stored under its direction.
#[derive(Debug)]
pub struct Path {
    pub direction: String,
    /// The name of the room the path leads to.
    pub target: String,
    pub inspection: String,
    pub locked: bool,
    pub closed: bool,
}

impl Named for Item {
    open spec fn key(&self) -> Seq<char> {
        self.name@
    }

    fn name_ref(&self) -> (r: &String) {
        &self.name
    }
}

impl Named for Enemy {
    open spec fn key(&self) -> Seq<char> {
        self.name@
    }

    fn name_ref(&self) -> (r: &String) {
        &self.name
    }
}

impl Named for Path {
    open spec fn key(&self) -> Seq<char> {
        self.direction@
    }

    fn name_ref(&self) -> (r: &String) {
        &self.direction
    }
}

impl Item {
    /// An item that is neither a weapon nor a container.
    pub fn new(name: &str, desc: &str, inspection: &str) -> (r: Item)
        ensures
            r.name@ == name@,
            r.desc@ == desc@,
            r.inspection@ == inspection@,
            r.damage is None,
            r.contents is None,
    {
        Item {
            name: name.to_owned(),
            desc: desc.to_owned(),
            inspection: inspection.to_owned(),
            damage: None,
            contents: None,
        }
    }

    /// Whether the item is a container whose contents hold no container.
    pub open spec fn wf(&self) -> bool {
        match self.contents {
            Some(c) => unique_keys(c@) && forall|i: int|
                0 <= i < c@.len() ==> (#[trigger] c@[i]).contents is None,
            None => true,
        }
    }
}

/// Whether a collection is well formed: its names are unique and each item
/// nests at most one level of contents.
pub open spec fn items_wf(s: Seq<Item>) -> bool {
    unique_keys(s) && forall|i: int| 0 <= i < s.len() ==> (#[trigger] s[i]).wf()
}

/// The position of the first element at or after `i` stored under `k`, or
/// -1 when there is none.
pub open spec fn index_from<T: Named>(s: Seq<T>, k: Seq<char>, i: int) -> int
    decreases s.len() - i,
{
    if i < 0 || i >= s.len() {
        -1
    } else if s[i].key() == k {
        i
    } else {
        index_from(s, k, i + 1)
    }
}

/// The position of the element stored under `k`, or -1 when there is none.
pub open spec fn index_of<T: Named>(s: Seq<T>, k: Seq<char>) -> int {
    index_from(s, k, 0)
}

/// Whether some element is stored under `k`.
pub open spec fn contains_key<T: Named>(s: Seq<T>, k: Seq<char>) -> bool {
    exists|i: int| 0 <= i < s.len() && (#[trigger] s[i]).key() == k
}

/// Whether no two elements share a name.
pub open spec fn unique_keys<T: Named>(s: Seq<T>) -> bool {
    forall|i: int, j: int|
        0 <= i < s.len() && 0 <= j < s.len() && i != j ==> (#[trigger] s[i]).key() != (#[trigger] s[j]).key()
}

/// The collection after storing `x` under its name: it replaces the element
/// of that name in place, or else comes last.
pub open spec fn put<T: Named>(s: Seq<T>, x: T) -> Seq<T> {
    let i = index_of(s, x.key());
    if i >= 0 {
        s.update(i, x)
    } else {
        s.push(x)
    }
}

/// The collection after taking out the element stored under `k`, if any.
pub open spec fn without<T: Named>(s: Seq<T>, k: Seq<char>) -> Seq<T> {
    let i = index_of(s, k);
    if i >= 0 {
        s.remove(i)
    } else {
        s
    }
}

/// The element stored under `k`, if any.
pub open spec fn lookup<T: Named>(s: Seq<T>, k: Seq<char>) -> Option<T> {
    let i = index_of(s, k);
    if i >= 0 {
        Some(s[i])
    } else {
        None
    }
}

pub proof fn lemma_index_from<T: Named>(s: Seq<T>, k: Seq<char>, i: int)
    requires
        0 <= i,
    ensures
        index_from(s, k, i) == -1 || (i <= index_from(s, k, i) < s.len() && s[index_from(s, k, i)].key() == k),
        index_from(s, k, i) == -1 <==> forall|j: int| i <= j < s.len() ==> (#[trigger] s[j]).key() != k,
        forall|j: int| i <= j < s.len() && j < index_from(s, k, i) ==> (#[trigger] s[j]).key() != k,
    decreases s.len() - i,
{
    if i < s.len() {
        lemma_index_from(s, k, i + 1);
    }
}

/// What `index_of` finds: the first position under `k`, or -1 exactly when
/// no element is stored under `k`.
pub proof fn lemma_index_of<T: Named>(s: Seq<T>, k: Seq<char>)
    ensures
        -1 <= index_of(s, k) < s.len(),
        index_of(s, k) >= 0 ==> s[index_of(s, k)].key() == k,
        index_of(s, k) >= 0 <==> contains_key(s, k),
        forall|j: int| 0 <= j < index_of(s, k) ==> (#[trigger] s[j]).key() != k,
{
    lemma_index_from(s, k, 0);
}

/// In a collection with unique names, the element stored under `k` is the
/// one at `index_of`.
pub proof fn lemma_unique_index<T: Named>(s: Seq<T>, k: Seq<char>, j: int)
    requires
        unique_keys(s),
        0 <= j < s.len(),
        s[j].key() == k,
    ensures
        index_of(s, k) == j,
{
    lemma_index_of(s, k);
}

/// Storing an element keeps the names of a collection unique.
pub proof fn lemma_put_unique<T: Named>(s: Seq<T>, x: T)
    requires
        unique_keys(s),
    ensures
        unique_keys(put(s, x)),
        contains_key(put(s, x), x.key()),
        put(s, x).len() == s.len() + (if contains_key(s, x.key()) { 0int } else { 1int }),
{
    lemma_index_of(s, x.key());
    let r = put(s, x);
    let w = if index_of(s, x.key()) >= 0 { index_of(s, x.key()) } else { s.len() as int };
    assert(r[w] == x);
    assert(contains_key(r, x.key()));
}

/// Taking an element out keeps the names unique and leaves none under its
/// name.
pub proof fn lemma_without_unique<T: Named>(s: Seq<T>, k: Seq<char>)
    requires
        unique_keys(s),
    ensures
        unique_keys(without(s, k)),
        !contains_key(without(s, k), k),
        without(s, k).len() == s.len() - (if contains_key(s, k) { 1int } else { 0int }),
{
    lemma_index_of(s, k);
    let i = index_of(s, k);
    let r = without(s, k);
    if i >= 0 {
        assert forall|a: int, b: int|
            0 <= a < r.len() && 0 <= b < r.len() && a != b implies (#[trigger] r[a]).key() != (#[trigger] r[b]).key() by {
            let a2 = if a < i { a } else { a + 1 };
            let b2 = if b < i { b } else { b + 1 };
            assert(r[a] == s[a2] && r[b] == s[b2]);
        }
        assert forall|j: int| 0 <= j < r.len() implies (#[trigger] r[j]).key() != k by {
            let j2 = if j < i { j } else { j + 1 };
            assert(r[j] == s[j2]);
        }
    }
}

/// The collection after storing each of `xs` in turn.
pub open spec fn put_all(s: Seq<Item>, xs: Seq<Item>) -> Seq<Item>
    decreases xs.len(),
{
    if xs.len() == 0 {
        s
    } else {
        put_all(put(s, xs[0]), xs.drop_first())
    }
}

/// Storing a well formed item keeps a collection well formed.
pub proof fn lemma_items_put(s: Seq<Item>, x: Item)
    requires
        items_wf(s),
        x.wf(),
    ensures
        items_wf(put(s, x)),
{
    lemma_put_unique(s, x);
    lemma_index_of(s, x.key());
    let r = put(s, x);
    assert forall|i: int| 0 <= i < r.len() implies (#[trigger] r[i]).wf() by {
        if i < s.len() && i != index_of(s, x.key()) {
            assert(r[i] == s[i]);
        }
    }
}

/// Storing well formed items one after another keeps a collection well
/// formed.
pub proof fn lemma_items_put_all(s: Seq<Item>, xs: Seq<Item>)
    requires
        items_wf(s),
        forall|i: int| 0 <= i < xs.len() ==> (#[trigger] xs[i]).wf(),
    ensures
        items_wf(put_all(s, xs)),
    decreases xs.len(),
{
    if xs.len() > 0 {
        lemma_items_put(s, xs[0]);
        assert forall|i: int| 0 <= i < xs.drop_first().len() implies (#[trigger] xs.drop_first()[i]).wf() by {
            assert(xs.drop_first()[i] == xs[i + 1]);
        }
        lemma_items_put_all(put(s, xs[0]), xs.drop_first());
    }
}

/// Taking an item out keeps a collection well formed, and the item taken
/// out is well formed.
pub proof fn lemma_items_without(s: Seq<Item>, k: Seq<char>)
    requires
        items_wf(s),
    ensures
        items_wf(without(s, k)),
        lookup(s, k) is Some ==> lookup(s, k)->Some_0.wf(),
{
    lemma_without_unique(s, k);
    lemma_index_of(s, k);
    let i = index_of(s, k);
    let r = without(s, k);
    assert forall|j: int| 0 <= j < r.len() implies (#[trigger] r[j]).wf() by {
        if i >= 0 {
            let j2 = if j < i { j } else { j + 1 };
            assert(r[j] == s[j2]);
        }
    }
}

/// Storing items one after another keeps names unique.
pub proof fn lemma_put_all_unique(s: Seq<Item>, xs: Seq<Item>)
    requires
        unique_keys(s),
    ensures
        unique_keys(put_all(s, xs)),
    decreases xs.len(),
{
    if xs.len() > 0 {
        lemma_put_unique(s, xs[0]);
        lemma_put_all_unique(put(s, xs[0]), xs.drop_first());
    }
}

/// Finds the position of the element stored under `k`.
pub fn find<T: Named>(v: &Vec<T>, k: &String) -> (r: Option<usize>)
    ensures
        match r {
            Some(i) => i as int == index_of(v@, k@),
            None => index_of(v@, k@) == -1,
        },
{
    proof {
        lemma_index_of(v@, k@);
    }
    let mut i: usize = 0;
    while i < v.len()
        invariant
            i <= v.len(),
            index_from(v@, k@, i as int) == index_of(v@, k@),
            forall|j: int| 0 <= j < i ==> (#[trigger] v@[j]).key() != k@,
        decreases v.len() - i,
    {
        if k.eq(v[i].name_ref()) {
            return Some(i);
        }
        i = i + 1;
    }
    None
}

/// Stores `x` under its name, replacing an element of the same name.
pub fn put_in<T: Named>(v: &mut Vec<T>, x: T)
    ensures
        final(v)@ == put(old(v)@, x),
{
    let k = x.name_ref().clone();
    proof {
        lemma_index_of(v@, k@);
    }
    match find(v, &k) {
        Some(i) => {
            v.set(i, x);
        },
        None => {
            v.push(x);
        },
    }
}

/// Takes out and returns the element stored under `k`, if any.
pub fn take_out<T: Named>(v: &mut Vec<T>, k: &String) -> (r: Option<T>)
    ensures
        r == lookup(old(v)@, k@),
        final(v)@ == without(old(v)@, k@),
{
    proof {
        lemma_index_of(v@, k@);
    }
    match find(v, k) {
        Some(i) => Some(v.remove(i)),
        None => None,
    }
}

/// Stores each of `xs` in turn, each replacing an element of the same name.
pub fn put_each(v: &mut Vec<Item>, xs: Vec<Item>)
    ensures
        final(v)@ == put_all(old(v)@, xs@),
{
    let mut rest = xs;
    while rest.len() > 0
        invariant
            put_all(v@, rest@) == put_all(old(v)@, xs@),
        decreases rest@.len(),
    {
        let ghost before = rest@;
        let x = rest.remove(0);
        assert(rest@ =~= before.drop_first());
        put_in(v, x);
    }
}

} // verus!
