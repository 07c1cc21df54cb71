//! Ordered sets of names, kept as strictly increasing vectors of strings.

use vstd::prelude::*;
use crate::text::{chars_of_string};

verus! {

/// Lexicographic order on character sequences, by code point: the order of
/// Rust's `String` comparison.
pub open spec fn seq_lt(a: Seq<char>, b: Seq<char>) -> bool
    decreases a.len(),
{
    if a.len() == 0 {
        b.len() > 0
    } else if b.len() == 0 {
        false
    } else if a[0] != b[0] {
        a[0] < b[0]
    } else {
        seq_lt(a.drop_first(), b.drop_first())
    }
}

/// No sequence precedes itself.
pub proof fn lemma_lt_irreflexive(a: Seq<char>)
    ensures
        !seq_lt(a, a),
    decreases a.len(),
{
    if a.len() > 0 {
        lemma_lt_irreflexive(a.drop_first());
    }
}

/// The order is transitive.
pub proof fn lemma_lt_transitive(a: Seq<char>, b: Seq<char>, c: Seq<char>)
    requires
        seq_lt(a, b),
        seq_lt(b, c),
    ensures
        seq_lt(a, c),
    decreases a.len(),
{
    if a.len() > 0 && b.len() > 0 && c.len() > 0 && a[0] == b[0] && b[0] == c[0] {
        lemma_lt_transitive(a.drop_first(), b.drop_first(), c.drop_first());
    }
}

/// Any two sequences are equal or ordered one way.
pub proof fn lemma_lt_total(a: Seq<char>, b: Seq<char>)
    ensures
        a == b || seq_lt(a, b) || seq_lt(b, a),
    decreases a.len(),
{
    if a.len() > 0 && b.len() > 0 && a[0] == b[0] {
        lemma_lt_total(a.drop_first(), b.drop_first());
        if a.drop_first() == b.drop_first() {
            assert(a =~= seq![a[0]] + a.drop_first());
            assert(b =~= seq![b[0]] + b.drop_first());
        }
    } else if a.len() == 0 && b.len() == 0 {
        assert(a =~= b);
    }
}

/// The order is asymmetric.
pub proof fn lemma_lt_asymmetric(a: Seq<char>, b: Seq<char>)
    requires
        seq_lt(a, b),
    ensures
        !seq_lt(b, a),
    decreases a.len(),
{
    if a.len() > 0 && b.len() > 0 && a[0] == b[0] {
        lemma_lt_asymmetric(a.drop_first(), b.drop_first());
    }
}

/// Whether `a` precedes `b` lexicographically.
pub fn text_less(a: &Vec<char>, b: &Vec<char>) -> (r: bool)
    ensures
        r == seq_lt(a@, b@),
{
    let mut i: usize = 0;
    assert(a@.skip(0) =~= a@);
    assert(b@.skip(0) =~= b@);
    while i < a.len() && i < b.len()
        invariant
            i <= a@.len(),
            i <= b@.len(),
            seq_lt(a@, b@) == seq_lt(a@.skip(i as int), b@.skip(i as int)),
        decreases a.len() - i,
    {
        let x = a[i];
        let y = b[i];
        assert(a@.skip(i as int)[0] == x);
        assert(b@.skip(i as int)[0] == y);
        if x != y {
            return x < y;
        }
        assert(a@.skip(i as int).drop_first() =~= a@.skip(i + 1));
        assert(b@.skip(i as int).drop_first() =~= b@.skip(i + 1));
        i = i + 1;
    }
    a.len() - i < b.len() - i
}

/// Whether the string `a` precedes the string `b`.
pub fn string_less(a: &String, b: &String) -> (r: bool)
    ensures
        r == seq_lt(a@, b@),
{
    let x = chars_of_string(a);
    let y = chars_of_string(b);
    text_less(&x, &y)
}

/// The character views of a sequence of strings.
pub open spec fn views(s: Seq<String>) -> Seq<Seq<char>> {
    s.map_values(|x: String| x@)
}

/// The views are strictly increasing.
pub open spec fn strictly_sorted(s: Seq<Seq<char>>) -> bool {
    forall|i: int, j: int| 0 <= i < j < s.len() ==> seq_lt(#[trigger] s[i], #[trigger] s[j])
}

/// A set of names, in increasing order without repetition.
pub struct NameSet {
    names: Vec<String>,
}

impl NameSet {
    /// The names in increasing order.
    pub closed spec fn ordered(&self) -> Seq<Seq<char>> {
        views(self.names@)
    }

    /// The set of names.
    pub open spec fn view(&self) -> Set<Seq<char>> {
        self.ordered().to_set()
    }

    #[verifier::type_invariant]
    closed spec fn well_formed(&self) -> bool {
        strictly_sorted(views(self.names@))
    }

    /// The empty set.
    pub fn new() -> (r: NameSet)
        ensures
            r.ordered() == Seq::<Seq<char>>::empty(),
            r@ == Set::<Seq<char>>::empty(),
    {
        let r = NameSet { names: Vec::new() };
        assert(r.ordered() =~= Seq::<Seq<char>>::empty());
        r
    }

    /// Whether `name` is in the set.
    pub fn contains(&self, name: &String) -> (r: bool)
        ensures
            r == self@.contains(name@),
    {
        let mut i: usize = 0;
        while i < self.names.len()
            invariant
                i <= self.names@.len(),
                forall|j: int| 0 <= j < i ==> (#[trigger] self.names@[j])@ != name@,
            decreases self.names.len() - i,
        {
            if crate::text::string_eq(&self.names[i], name) {
                assert(self.ordered()[i as int] == name@);
                return true;
            }
            i = i + 1;
        }
        proof {
            if self.ordered().contains(name@) {
                let j = choose|j: int| 0 <= j < self.ordered().len() && self.ordered()[j] == name@;
                assert(self.names@[j]@ == name@);
            }
        }
        false
    }

    /// Adds `name` to the set.
    pub fn insert(&mut self, name: String)
        ensures
            final(self)@ == old(self)@.insert(name@),
    {
        proof { use_type_invariant(&*self); }
        let ghost old_names = views(self.names@);
        let mut i: usize = 0;
        while i < self.names.len()
            invariant
                i <= self.names@.len(),
                old_names == views(self.names@),
                strictly_sorted(old_names),
                forall|j: int| 0 <= j < i ==> seq_lt(#[trigger] old_names[j], name@),
            ensures
                i <= self.names@.len(),
                old_names == views(self.names@),
                i < self.names@.len() ==> seq_lt(name@, old_names[i as int]),
                forall|j: int| 0 <= j < i ==> seq_lt(#[trigger] old_names[j], name@),
            decreases self.names.len() - i,
        {
            if crate::text::string_eq(&self.names[i], &name) {
                proof {
                    assert(old_names[i as int] == name@);
                    assert(self@.insert(name@) =~= self@);
                }
                return;
            }
            if string_less(&name, &self.names[i]) {
                break;
            }
            proof { lemma_lt_total(old_names[i as int], name@); }
            i = i + 1;
        }
        let ghost pos = i as int;
        proof {
            assert forall|j: int| pos <= j < old_names.len() implies seq_lt(name@, #[trigger] old_names[j]) by {
                if j > pos {
                    lemma_lt_transitive(name@, old_names[pos], old_names[j]);
                }
            }
        }
        let mut names: Vec<String> = Vec::new();
        std::mem::swap(&mut names, &mut self.names);
        names.insert(i, name);
        let ghost new_names = views(names@);
        proof {
            assert(new_names =~= old_names.insert(pos, name@));
            assert forall|a: int, b: int| 0 <= a < b < new_names.len() implies seq_lt(#[trigger] new_names[a], #[trigger] new_names[b]) by {
                if b < pos {
                } else if b == pos {
                } else if a < pos {
                    lemma_lt_transitive(old_names[a], name@, old_names[b - 1]);
                } else if a == pos {
                } else {
                }
            }
            assert(new_names.to_set() =~= old_names.to_set().insert(name@)) by {
                assert forall|x: Seq<char>| new_names.to_set().contains(x) == old_names.to_set().insert(name@).contains(x) by {
                    if new_names.contains(x) {
                        let k = choose|k: int| 0 <= k < new_names.len() && new_names[k] == x;
                        if k < pos {
                            assert(old_names[k] == x);
                        } else if k > pos {
                            assert(old_names[k - 1] == x);
                        }
                    }
                    if old_names.contains(x) {
                        let k = choose|k: int| 0 <= k < old_names.len() && old_names[k] == x;
                        if k < pos {
                            assert(new_names[k] == x);
                        } else {
                            assert(new_names[k + 1] == x);
                        }
                    }
                    if x == name@ {
                        assert(new_names[pos] == x);
                    }
                }
            }
        }
        self.names = names;
    }

    /// Adds every name of `other`.
    pub fn extend(&mut self, other: &NameSet)
        ensures
            final(self)@ == old(self)@.union(other@),
    {
        let mut i: usize = 0;
        let ghost start = self@;
        while i < other.names.len()
            invariant
                i <= other.names@.len(),
                self@ == start.union(other.ordered().take(i as int).to_set()),
            decreases other.names.len() - i,
        {
            let n = other.names[i].clone();
            self.insert(n);
            proof {
                assert(n@ == other.ordered()[i as int]);
                assert(other.ordered().take(i + 1) =~= other.ordered().take(i as int).push(other.ordered()[i as int]));
                other.ordered().take(i as int).lemma_push_to_set_commute(other.ordered()[i as int]);
                assert(self@ =~= start.union(other.ordered().take(i + 1).to_set()));
            }
            i = i + 1;
        }
        assert(other.ordered().take(other.names@.len() as int) =~= other.ordered());
    }

    /// The names in increasing order.
    pub fn to_vec(&self) -> (r: Vec<String>)
        ensures
            views(r@) == self.ordered(),
            strictly_sorted(views(r@)),
            views(r@).to_set() == self@,
    {
        proof { use_type_invariant(self); }
        let mut out: Vec<String> = Vec::new();
        let mut i: usize = 0;
        while i < self.names.len()
            invariant
                i <= self.names@.len(),
                views(out@) == self.ordered().take(i as int),
            decreases self.names.len() - i,
        {
            let n = self.names[i].clone();
            assert(n@ == self.ordered()[i as int]);
            let ghost before = out@;
            out.push(n);
            assert(out@ =~= before.push(n));
            assert(views(out@) =~= views(before).push(n@));
            assert(views(out@) =~= self.ordered().take(i + 1));
            i = i + 1;
        }
        assert(self.ordered().take(self.names@.len() as int) =~= self.ordered());
        out
    }

    /// A copy of the set.
    pub fn duplicate(&self) -> (r: NameSet)
        ensures
            r@ == self@,
            r.ordered() == self.ordered(),
    {
        proof { use_type_invariant(self); }
        let names = self.to_vec();
        NameSet { names }
    }

    /// Adds every name of `names`.
    pub fn insert_all(&mut self, names: &Vec<String>)
        ensures
            final(self)@ == old(self)@.union(views(names@).to_set()),
    {
        let mut i: usize = 0;
        let ghost start = self@;
        while i < names.len()
            invariant
                i <= names@.len(),
                self@ == start.union(views(names@).take(i as int).to_set()),
            decreases names.len() - i,
        {
            let n = names[i].clone();
            self.insert(n);
            proof {
                assert(views(names@).take(i + 1) =~= views(names@).take(i as int).push(n@));
                views(names@).take(i as int).lemma_push_to_set_commute(n@);
                assert(self@ =~= start.union(views(names@).take(i + 1).to_set()));
            }
            i = i + 1;
        }
        assert(views(names@).take(names@.len() as int) =~= views(names@));
    }
}

} // verus!
