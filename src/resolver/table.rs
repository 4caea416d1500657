//! A list of named entries, shared by the resolvers that take any name.
use vstd::prelude::*;

use super::{refers, Slot};

verus! {

/// The place of the first entry named `name`.
pub open spec fn index_of<T>(e: Seq<(String, T)>, name: Seq<char>) -> Option<int>
    decreases e.len(),
{
    if e.len() == 0 {
        None
    } else if e[0].0@ == name {
        Some(0)
    } else {
        match index_of(e.subrange(1, e.len() as int), name) {
            Some(i) => Some(i + 1),
            None => None,
        }
    }
}

/// The value of the first entry named `name`.
pub open spec fn find<T>(e: Seq<(String, T)>, name: Seq<char>) -> Option<T> {
    match index_of(e, name) {
        Some(i) => Some(e[i].1),
        None => None,
    }
}

/// The value of the entry at a place, if the place exists.
pub open spec fn entry_at<T>(e: Seq<(String, T)>, i: int) -> Option<T> {
    if 0 <= i < e.len() {
        Some(e[i].1)
    } else {
        None
    }
}

pub open spec fn same_keys<T>(a: Seq<(String, T)>, b: Seq<(String, T)>) -> bool {
    a.len() == b.len() && forall|j: int| 0 <= j < a.len() ==> (#[trigger] a[j]).0 == b[j].0
}

/// What `index_of` finds: the first entry of that name, or none at all.
pub proof fn lemma_index_of<T>(e: Seq<(String, T)>, name: Seq<char>)
    ensures
        match index_of(e, name) {
            Some(i) => 0 <= i < e.len() && e[i].0@ == name && forall|j: int|
                0 <= j < i ==> (#[trigger] e[j]).0@ != name,
            None => forall|j: int| 0 <= j < e.len() ==> (#[trigger] e[j]).0@ != name,
        },
    decreases e.len(),
{
    if e.len() > 0 {
        let r = e.subrange(1, e.len() as int);
        lemma_index_of(r, name);
        assert forall|j: int| 0 <= j < r.len() implies r[j] == e[j + 1] by {}
        if e[0].0@ != name {
            match index_of(r, name) {
                Some(i) => {
                    assert forall|j: int| 0 <= j < i + 1 implies (#[trigger] e[j]).0@ != name by {
                        if j > 0 {
                            assert(e[j] == r[j - 1]);
                        }
                    }
                },
                None => {
                    assert forall|j: int| 0 <= j < e.len() implies (#[trigger] e[j]).0@ != name by {
                        if j > 0 {
                            assert(e[j] == r[j - 1]);
                        }
                    }
                },
            }
        }
    }
}

/// The first entry of a name is the one `index_of` finds.
pub proof fn lemma_index_of_first<T>(e: Seq<(String, T)>, name: Seq<char>, i: int)
    requires
        0 <= i < e.len(),
        e[i].0@ == name,
        forall|j: int| 0 <= j < i ==> (#[trigger] e[j]).0@ != name,
    ensures
        index_of(e, name) == Some(i),
{
    lemma_index_of(e, name);
    match index_of(e, name) {
        Some(k) => {
            if k < i {
                assert(e[k].0@ != name);
            } else if k > i {
                assert(e[i].0@ != name);
            }
        },
        None => {
            assert(e[i].0@ != name);
        },
    }
}

/// Only the names of the entries decide `index_of`.
pub proof fn lemma_index_of_keys<T>(a: Seq<(String, T)>, b: Seq<(String, T)>, name: Seq<char>)
    requires
        same_keys(a, b),
    ensures
        index_of(a, name) == index_of(b, name),
    decreases a.len(),
{
    if a.len() > 0 {
        assert(a[0].0 == b[0].0);
        let ra = a.subrange(1, a.len() as int);
        let rb = b.subrange(1, b.len() as int);
        assert forall|j: int| 0 <= j < ra.len() implies (#[trigger] ra[j]).0 == rb[j].0 by {
            assert(ra[j] == a[j + 1]);
            assert(rb[j] == b[j + 1]);
        }
        lemma_index_of_keys(ra, rb, name);
    }
}

/// Replacing the value at a place changes only the names found there.
pub proof fn lemma_find_update<T>(e: Seq<(String, T)>, p: int, v: T, n: Seq<char>)
    requires
        0 <= p < e.len(),
    ensures
        index_of(e.update(p, (e[p].0, v)), n) == index_of(e, n),
        find(e.update(p, (e[p].0, v)), n) == if index_of(e, n) == Some(p) {
            Some(v)
        } else {
            find(e, n)
        },
{
    let u = e.update(p, (e[p].0, v));
    assert forall|j: int| 0 <= j < e.len() implies (#[trigger] e[j]).0 == u[j].0 by {}
    lemma_index_of_keys(e, u, n);
    lemma_index_of(e, n);
}

/// Appending an entry only adds a name that was not there.
pub proof fn lemma_find_push<T>(e: Seq<(String, T)>, x: (String, T), n: Seq<char>)
    ensures
        find(e.push(x), n) == match find(e, n) {
            Some(v) => Some(v),
            None => if x.0@ == n {
                Some(x.1)
            } else {
                None
            },
        },
{
    let p = e.push(x);
    lemma_index_of(e, n);
    assert forall|j: int| 0 <= j < e.len() implies (#[trigger] p[j]) == e[j] by {}
    match index_of(e, n) {
        Some(i) => {
            lemma_index_of_first(p, n, i);
        },
        None => {
            if x.0@ == n {
                lemma_index_of_first(p, n, e.len() as int);
            } else {
                lemma_index_of(p, n);
                if index_of(p, n) is Some {
                    let k = index_of(p, n)->0;
                    if k < e.len() {
                        assert(e[k].0@ != n);
                    }
                }
            }
        },
    }
}

/// Where the first entry named `name` is, if any.
pub fn position<T>(e: &Vec<(String, T)>, name: &String) -> (r: Option<usize>)
    ensures
        match r {
            Some(i) => index_of(e@, name@) == Some(i as int),
            None => index_of(e@, name@) is None,
        },
        r matches Some(i) ==> i < e@.len() && e@[i as int].0@ == name@,
{
    let mut i: usize = 0;
    while i < e.len()
        invariant
            i <= e@.len(),
            forall|j: int| 0 <= j < i ==> (#[trigger] e@[j]).0@ != name@,
        decreases e@.len() - i,
    {
        if e[i].0 == *name {
            proof {
                lemma_index_of_first(e@, name@, i as int);
            }
            return Some(i);
        }
        i = i + 1;
    }
    proof {
        lemma_index_of(e@, name@);
        if index_of(e@, name@) is Some {
            let k = index_of(e@, name@)->0;
            assert(e@[k].0@ != name@);
        }
    }
    None
}

/// The place of the entry a slot designates.
pub open spec fn place<T>(e: Seq<(String, T)>, slot: Slot) -> Option<int> {
    match slot {
        Slot::Name(n) => index_of(e, n@),
        Slot::Handle(i) => if i < e.len() {
            Some(i as int)
        } else {
            None
        },
        Slot::Index(_, _) => None,
    }
}

/// The value a slot designates.
pub open spec fn at<T>(e: Seq<(String, T)>, slot: Slot) -> Option<T> {
    match place(e, slot) {
        Some(i) => Some(e[i].1),
        None => None,
    }
}

pub open spec fn designates<T>(e: Seq<(String, T)>, slot: Slot, n: Seq<char>) -> bool {
    place(e, slot) is Some && place(e, slot) == index_of(e, n)
}

pub open spec fn aliases<T>(e: Seq<(String, T)>, a: Slot, b: Slot) -> bool {
    place(e, a) is Some && place(e, a) == place(e, b)
}

pub fn resolve_in<'a, T>(e: &'a Vec<(String, T)>, name: &str) -> (r: Option<&'a T>)
    ensures
        refers(r, find(e@, name@)),
{
    let key = name.to_owned();
    match position(e, &key) {
        Some(i) => Some(&e[i].1),
        None => None,
    }
}

pub fn place_in<T>(e: &Vec<(String, T)>, slot: &Slot) -> (r: Option<usize>)
    ensures
        match r {
            Some(i) => place(e@, *slot) == Some(i as int),
            None => place(e@, *slot) is None,
        },
        r matches Some(i) ==> i < e@.len(),
{
    match slot {
        Slot::Name(n) => position(e, n),
        Slot::Handle(i) => if *i < e.len() {
            Some(*i)
        } else {
            None
        },
        Slot::Index(_, _) => None,
    }
}

pub fn fetch_in<'a, T>(e: &'a Vec<(String, T)>, slot: &Slot) -> (r: Option<&'a T>)
    ensures
        refers(r, at(e@, *slot)),
{
    match place_in(e, slot) {
        Some(i) => Some(&e[i].1),
        None => None,
    }
}

/// A slot that designates the first entry of a name, if there is one.
pub fn handle_in<T>(e: &Vec<(String, T)>, name: &str) -> (r: Option<Slot>)
    ensures
        r is Some <==> find(e@, name@) is Some,
        r matches Some(s) ==> at(e@, s) == find(e@, name@),
        r matches Some(s) ==> designates(e@, s, name@),
{
    let key = name.to_owned();
    match position(e, &key) {
        Some(i) => Some(Slot::Handle(i)),
        None => None,
    }
}

/// Replaces the value of the entry a slot designates.
pub fn write_in<T>(e: &mut Vec<(String, T)>, slot: &Slot, value: T)
    requires
        at(old(e)@, *slot) is Some,
    ensures
        same_keys(old(e)@, final(e)@),
        at(final(e)@, *slot) == Some(value),
        forall|s: Slot|
            !aliases(old(e)@, s, *slot) ==> #[trigger] at(final(e)@, s) == at(old(e)@, s),
        forall|s: Slot| aliases(old(e)@, s, *slot) ==> #[trigger] at(final(e)@, s) == Some(value),
        forall|a: Slot, b: Slot| #[trigger] aliases(final(e)@, a, b) == aliases(old(e)@, a, b),
        forall|n: Seq<char>|
            designates(old(e)@, *slot, n) ==> #[trigger] find(final(e)@, n) == Some(value),
        forall|n: Seq<char>|
            !designates(old(e)@, *slot, n) ==> #[trigger] find(final(e)@, n) == find(old(e)@, n),
        forall|s: Slot, n: Seq<char>| #[trigger] designates(final(e)@, s, n) == designates(old(e)@, s, n),
{
    let p = place_in(e, slot).unwrap();
    let k = e[p].0.clone();
    e.set(p, (k, value));
    proof {
        let o = old(e)@;
        let u = e@;
        assert(u =~= o.update(p as int, (o[p as int].0, value)));
        assert(same_keys(o, u));
        assert forall|n: Seq<char>| #[trigger] index_of(u, n) == index_of(o, n) by {
            lemma_index_of_keys(o, u, n);
        }
        assert forall|s: Slot| #[trigger] place(u, s) == place(o, s) by {}
        assert forall|s: Slot| !aliases(o, s, *slot) implies #[trigger] at(u, s) == at(o, s) by {
            if place(o, s) is Some {
                let q = place(o, s)->0;
                if let Slot::Name(n) = s {
                    lemma_index_of(o, n@);
                }
                assert(u[q] == o[q]);
            }
        }
        assert forall|n: Seq<char>| #[trigger] find(u, n) == if index_of(o, n) == Some(p as int) {
            Some(value)
        } else {
            find(o, n)
        } by {
            lemma_find_update(o, p as int, value, n);
        }
    }
}

/// Binds a name, replacing the value of its first entry or adding one.
pub fn insert_in<T>(e: &mut Vec<(String, T)>, name: &str, value: T)
    ensures
        final(e)@.len() == old(e)@.len() + if find(old(e)@, name@) is None {
            1int
        } else {
            0int
        },
        forall|n: Seq<char>|
            #[trigger] find(final(e)@, n) == if n == name@ {
                Some(value)
            } else {
                find(old(e)@, n)
            },
{
    let key = name.to_owned();
    match position(e, &key) {
        Some(p) => {
            let k = e[p].0.clone();
            e.set(p, (k, value));
            proof {
                assert forall|n: Seq<char>|
                    #[trigger] find(e@, n) == if n == name@ {
                        Some(value)
                    } else {
                        find(old(e)@, n)
                    } by {
                    lemma_find_update(old(e)@, p as int, value, n);
                    assert(e@ =~= old(e)@.update(p as int, (old(e)@[p as int].0, value)));
                    if n != name@ && index_of(old(e)@, n) == Some(p as int) {
                        lemma_index_of(old(e)@, n);
                    }
                }
            }
        },
        None => {
            e.push((key, value));
            proof {
                assert forall|n: Seq<char>|
                    #[trigger] find(e@, n) == if n == name@ {
                        Some(value)
                    } else {
                        find(old(e)@, n)
                    } by {
                    lemma_find_push(old(e)@, (key, value), n);
                }
            }
        },
    }
}

} // verus!
