//! A resolver for names made of one lowercase letter and a number.
use vstd::prelude::*;

use super::{refers, Locked, LockedResolver, Ptr, Resolver, ResolverState, Slot, Unlocked, UnlockedResolver};
use crate::parsing::{all_digits, digits_value, is_digit, is_lower, lemma_digits_value_prefix_le, lemma_digits_value_push};

verus! {

broadcast use vstd::string::is_ascii_spec_bytes;

/// Number of buckets: one per lowercase letter.
pub const ALPHABET_SIZE: usize = 26;

/// Whether a name is a lowercase letter followed by a decimal number.
pub open spec fn indexable(n: Seq<char>) -> bool {
    &&& 2 <= n.len()
    &&& is_lower(n[0])
    &&& forall|i: int| 1 <= i < n.len() ==> is_digit(#[trigger] n[i])
}

/// The bucket (the letter, from `a` as 0) and the offset (the number) that an
/// indexed name designates.
pub open spec fn spec_name_index(n: Seq<char>) -> Option<(int, int)> {
    if indexable(n) {
        Some(
            (
                (n[0] as u32 - 97) as int,
                digits_value(Seq::new((n.len() - 1) as nat, |i: int| n[i + 1] as u8)) as int,
            ),
        )
    } else {
        None
    }
}

/// Reads an indexed name: its bucket and, where the number fits in a
/// `usize`, its offset.
pub fn name_index(name: &str) -> (r: Option<(usize, Option<usize>)>)
    ensures
        match r {
            Some((l, Some(i))) => spec_name_index(name@) == Some((l as int, i as int)),
            Some((l, None)) => match spec_name_index(name@) {
                Some((b, i)) => b == l && i > usize::MAX,
                None => false,
            },
            None => spec_name_index(name@) is None,
        },
{
    if !name.is_ascii() {
        proof {
            if indexable(name@) {
                assert forall|i: int| 0 <= i < name@.len() implies '\0' <= #[trigger] name@[i]
                    <= '\u{7f}' by {
                    if i > 0 {
                        assert(is_digit(name@[i]));
                    }
                }
            }
        }
        return None;
    }
    let b = name.as_bytes();
    assert(b@ =~= Seq::new(name@.len(), |i: int| name@[i] as u8));
    let n = b.len();
    if n < 2 {
        return None;
    }
    if b[0] < 97 || b[0] > 122 {
        return None;
    }
    let mut k: usize = 1;
    while k < n
        invariant
            1 <= k <= n,
            n == b@.len(),
            b@ == Seq::new(name@.len(), |i: int| name@[i] as u8),
            forall|j: int| 1 <= j < k ==> is_digit(#[trigger] name@[j]),
            forall|j: int| 0 <= j < n ==> '\0' <= #[trigger] name@[j] <= '\u{7f}',
        decreases n - k,
    {
        if b[k] < 48 || b[k] > 57 {
            return None;
        }
        k = k + 1;
    }
    let l = (b[0] - 97) as usize;
    let digits = &b[1..n];
    assert(digits@ =~= Seq::new((n - 1) as nat, |i: int| name@[i + 1] as u8));
    assert(all_digits(digits@));
    assert(indexable(name@));
    let ghost want = spec_name_index(name@);
    assert(want == Some(((name@[0] as u32 - 97) as int, digits_value(digits@) as int)));
    assert(l as int == (name@[0] as u32 - 97) as int);
    let mut acc: usize = 0;
    let mut j: usize = 0;
    while j < digits.len()
        invariant
            j <= digits@.len(),
            all_digits(digits@),
            acc == digits_value(digits@.subrange(0, j as int)),
            want == Some((l as int, digits_value(digits@) as int)),
            want == spec_name_index(name@),
        decreases digits@.len() - j,
    {
        let d = (digits[j] - 48) as usize;
        proof {
            lemma_digits_value_push(digits@.subrange(0, j as int), digits@[j as int]);
            assert(digits@.subrange(0, j as int).push(digits@[j as int]) =~= digits@.subrange(0, j + 1));
        }
        if acc > (usize::MAX - d) / 10 {
            proof {
                assert(acc * 10 + d > usize::MAX) by (nonlinear_arith)
                    requires
                        acc > (usize::MAX - d) / 10,
                        d <= 9,
                ;
                lemma_digits_value_prefix_le(digits@, j + 1);
                assert(digits_value(digits@.subrange(0, j + 1)) == acc * 10 + d);
                assert(digits_value(digits@) > usize::MAX);
                assert(want == spec_name_index(name@));
            }
            return Some((l, None));
        }
        proof {
            assert(acc * 10 + d <= usize::MAX) by (nonlinear_arith)
                requires
                    acc <= (usize::MAX - d) / 10,
                    d <= 9,
            ;
        }
        acc = acc * 10 + d;
        j = j + 1;
    }
    assert(digits@.subrange(0, j as int) =~= digits@);
    assert(acc as int == digits_value(digits@) as int);
    assert(want == spec_name_index(name@));
    assert(spec_name_index(name@) == Some((l as int, acc as int)));
    Some((l, Some(acc)))
}

/// A resolver over 26 buckets, one per lowercase letter, each a list of
/// values: the name `p19` designates the 20th value of bucket `p`.
///
/// Lookups cost no search at all; names must follow that form.
pub struct IndexedResolver<S: ResolverState, T> {
    vars: Vec<Vec<T>>,
    state: S,
}

impl<S: ResolverState, T> IndexedResolver<S, T> {
    /// The buckets, the first for `a`.
    pub closed spec fn buckets(&self) -> Seq<Seq<T>> {
        self.vars@.map_values(|v: Vec<T>| v@)
    }

    /// The value at an offset of a bucket, if both exist.
    pub open spec fn value_at(&self, l: int, i: int) -> Option<T> {
        if 0 <= l < self.buckets().len() && 0 <= i < self.buckets()[l].len() {
            Some(self.buckets()[l][i])
        } else {
            None
        }
    }

    pub open spec fn wf(&self) -> bool {
        self.buckets().len() == ALPHABET_SIZE
    }

    /// The place a slot designates.
    pub open spec fn place(&self, slot: Slot) -> Option<(int, int)> {
        let p = match slot {
            Slot::Index(l, i) => Some((l as int, i as int)),
            Slot::Name(n) => spec_name_index(n@),
            Slot::Handle(_) => None,
        };
        match p {
            Some((l, i)) => if self.value_at(l, i) is Some {
                Some((l, i))
            } else {
                None
            },
            None => None,
        }
    }

    /// Replaces the value at an offset of a bucket.
    pub fn set(&mut self, id: char, index: usize, value: T)
        requires
            old(self).wf(),
            is_lower(id),
            index < old(self).buckets()[id as u32 - 97].len(),
        ensures
            final(self).wf(),
            final(self).buckets() == old(self).buckets().update(
                id as u32 - 97,
                old(self).buckets()[id as u32 - 97].update(index as int, value),
            ),
    {
        let l = (id as u32 - 97) as usize;
        self.write_at(l, index, value);
    }

    fn write_at(&mut self, l: usize, i: usize, value: T)
        requires
            l < old(self).buckets().len(),
            i < old(self).buckets()[l as int].len(),
        ensures
            final(self).buckets() == old(self).buckets().update(
                l as int,
                old(self).buckets()[l as int].update(i as int, value),
            ),
    {
        let mut row = self.vars.remove(l);
        row.set(i, value);
        self.vars.insert(l, row);
        assert(self.buckets() =~= old(self).buckets().update(
            l as int,
            old(self).buckets()[l as int].update(i as int, value),
        ));
    }

    /// An offset past what a `usize` holds is past every bucket.
    fn lemma_huge_absent(&self, l: usize, Ghost(i): Ghost<int>)
        requires
            i > usize::MAX,
        ensures
            self.value_at(l as int, i) is None,
    {
        if l < self.vars.len() {
            let _ = self.vars[l].len();
        }
    }

    /// The bucket and the offset of an indexed name whose number fits in a
    /// `usize`.
    fn slot_of(&self, name: &str) -> (r: Option<(usize, usize)>)
        ensures
            match r {
                Some((l, i)) => spec_name_index(name@) == Some((l as int, i as int)),
                None => match spec_name_index(name@) {
                    Some((b, i)) => self.value_at(b, i) is None,
                    None => true,
                },
            },
    {
        match name_index(name) {
            Some((l, Some(i))) => Some((l, i)),
            Some((l, None)) => {
                let ghost i = match spec_name_index(name@) {
                    Some((_, i)) => i,
                    None => 0,
                };
                self.lemma_huge_absent(l, Ghost(i));
                None
            },
            None => None,
        }
    }

    /// The value at an offset of a bucket, buckets counted from `a` as 0.
    pub fn get(&self, id: usize, index: usize) -> (r: Option<&T>)
        ensures
            refers(r, self.value_at(id as int, index as int)),
    {
        if id < self.vars.len() && index < self.vars[id].len() {
            Some(&self.vars[id][index])
        } else {
            None
        }
    }
}

impl<T: Default + Copy> IndexedResolver<Unlocked, T> {
    /// A resolver with 26 empty buckets.
    pub fn new() -> (r: Self)
        ensures
            r.wf(),
            forall|l: int| 0 <= l < ALPHABET_SIZE ==> (#[trigger] r.buckets()[l]).len() == 0,
    {
        let mut vars: Vec<Vec<T>> = Vec::new();
        let mut k: usize = 0;
        while k < ALPHABET_SIZE
            invariant
                k <= ALPHABET_SIZE,
                vars@.len() == k,
                forall|l: int| 0 <= l < k ==> (#[trigger] vars@[l])@.len() == 0,
            decreases ALPHABET_SIZE - k,
        {
            vars.push(Vec::new());
            k = k + 1;
        }
        IndexedResolver { vars, state: Unlocked }
    }

    /// Gives the bucket of a letter `len` values, all the default value.
    pub fn add_id(&mut self, id: char, len: usize)
        requires
            old(self).wf(),
            is_lower(id),
        ensures
            final(self).wf(),
            final(self).buckets().len() == old(self).buckets().len(),
            forall|l: int|
                0 <= l < ALPHABET_SIZE && l != id as u32 - 97 ==> #[trigger] final(self).buckets()[l]
                    == old(self).buckets()[l],
            final(self).buckets()[id as u32 - 97].len() == len,
            forall|i: int, j: int|
                0 <= i < len && 0 <= j < len ==> #[trigger] final(self).buckets()[id as u32 - 97][i]
                    == #[trigger] final(self).buckets()[id as u32 - 97][j],
    {
        let l = (id as u32 - 97) as usize;
        let d = T::default();
        let mut row: Vec<T> = Vec::with_capacity(len);
        let mut k: usize = 0;
        while k < len
            invariant
                k <= len,
                row@.len() == k,
                forall|i: int| 0 <= i < k ==> #[trigger] row@[i] == d,
            decreases len - k,
        {
            row.push(d);
            k = k + 1;
        }
        let _ = self.vars.remove(l);
        self.vars.insert(l, row);
        assert(self.buckets() =~= old(self).buckets().update(l as int, row@));
    }
}

impl<S: ResolverState, T> Resolver<S, T> for IndexedResolver<S, T> {
    open spec fn lookup(&self, name: Seq<char>) -> Option<T> {
        match spec_name_index(name) {
            Some((l, i)) => self.value_at(l, i),
            None => None,
        }
    }

    open spec fn at(&self, slot: Slot) -> Option<T> {
        match self.place(slot) {
            Some((l, i)) => self.value_at(l, i),
            None => None,
        }
    }

    fn resolve(&self, name: &str) -> (r: Option<&T>) {
        match self.slot_of(name) {
            Some((l, i)) => self.get(l, i),
            None => None,
        }
    }

    fn locate(&self, name: &str) -> (r: Slot) {
        match name_index(name) {
            Some((l, Some(i))) => Slot::Index(l, i),
            _ => Slot::Name(name.to_owned()),
        }
    }

    fn fetch(&self, slot: &Slot) -> (r: Option<&T>) {
        match slot {
            Slot::Index(l, i) => self.get(*l, *i),
            Slot::Name(n) => self.resolve(n.as_str()),
            Slot::Handle(_) => None,
        }
    }
}

impl<T> LockedResolver<T> for IndexedResolver<Locked, T> {
    open spec fn aliases(&self, a: Slot, b: Slot) -> bool {
        self.place(a) is Some && self.place(a) == self.place(b)
    }

    open spec fn designates(&self, slot: Slot, name: Seq<char>) -> bool {
        self.place(slot) is Some && self.place(slot) == spec_name_index(name)
    }

    fn get_ptr(&self, name: &str) -> (r: Option<Ptr<T>>) {
        match self.slot_of(name) {
            Some((l, i)) => if l < self.vars.len() && i < self.vars[l].len() {
                Some(Ptr { slot: Slot::Index(l, i), marker: core::marker::PhantomData })
            } else {
                None
            },
            None => None,
        }
    }

    fn write(&mut self, slot: &Slot, value: T) {
        let p = match slot {
            Slot::Index(l, i) => Some((*l, *i)),
            Slot::Name(n) => self.slot_of(n.as_str()),
            Slot::Handle(_) => None,
        };
        let (l, i) = p.unwrap();
        self.write_at(l, i, value);
        assert forall|s: Slot| #[trigger] final(self).place(s) == old(self).place(s) by {}
    }
}

impl<T> UnlockedResolver<T, IndexedResolver<Locked, T>> for IndexedResolver<Unlocked, T> {
    fn lock(self) -> (r: IndexedResolver<Locked, T>) {
        IndexedResolver { vars: self.vars, state: Locked }
    }
}

} // verus!
