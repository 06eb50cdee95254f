//! Named texts: what an action's parameters are called and what they hold.
use crate::text::{chars_of, same};
use vstd::prelude::*;

verus! {

/// Whether `a` comes before `b` in the order of their characters.
pub open spec fn text_before(a: Seq<char>, b: Seq<char>) -> bool
    decreases a.len(),
{
    if b.len() == 0 {
        false
    } else if a.len() == 0 {
        true
    } else if a[0] != b[0] {
        a[0] < b[0]
    } else {
        text_before(a.subrange(1, a.len() as int), b.subrange(1, b.len() as int))
    }
}

proof fn lemma_before_at(a: Seq<char>, b: Seq<char>, k: int)
    requires
        0 <= k <= a.len(),
        k <= b.len(),
        a.subrange(0, k) == b.subrange(0, k),
    ensures
        text_before(a, b) == text_before(
            a.subrange(k, a.len() as int),
            b.subrange(k, b.len() as int),
        ),
    decreases k,
{
    if k == 0 {
        assert(a.subrange(0, a.len() as int) == a);
        assert(b.subrange(0, b.len() as int) == b);
    } else {
        assert(a[0] == a.subrange(0, k)[0]);
        assert(b[0] == b.subrange(0, k)[0]);
        let x = a.subrange(1, a.len() as int);
        let y = b.subrange(1, b.len() as int);
        assert(x.subrange(0, k - 1) == a.subrange(0, k).subrange(1, k));
        assert(y.subrange(0, k - 1) == b.subrange(0, k).subrange(1, k));
        lemma_before_at(x, y, k - 1);
        assert(x.subrange(k - 1, x.len() as int) == a.subrange(k, a.len() as int));
        assert(y.subrange(k - 1, y.len() as int) == b.subrange(k, b.len() as int));
    }
}

pub proof fn lemma_before_transitive(a: Seq<char>, b: Seq<char>, c: Seq<char>)
    requires
        text_before(a, b),
        text_before(b, c),
    ensures
        text_before(a, c),
    decreases a.len(),
{
    if a.len() > 0 && b.len() > 0 && c.len() > 0 && a[0] == b[0] && b[0] == c[0] {
        lemma_before_transitive(
            a.subrange(1, a.len() as int),
            b.subrange(1, b.len() as int),
            c.subrange(1, c.len() as int),
        );
    }
}

/// The order tells different texts apart.
pub proof fn lemma_before_total(a: Seq<char>, b: Seq<char>)
    ensures
        !text_before(a, a),
        a != b ==> text_before(a, b) || text_before(b, a),
    decreases a.len(),
{
    if a.len() > 0 && b.len() > 0 && a[0] == b[0] {
        let x = a.subrange(1, a.len() as int);
        let y = b.subrange(1, b.len() as int);
        lemma_before_total(x, y);
        if x == y {
            assert(a == seq![a[0]] + x);
            assert(b == seq![b[0]] + y);
        }
    } else if a.len() > 0 {
        lemma_before_total(a.subrange(1, a.len() as int), a.subrange(1, a.len() as int));
    }
    if a.len() == 0 && b.len() == 0 {
        assert(a == b);
    }
}

/// Whether `a` comes before `b`.
fn is_before(a: &str, b: &str) -> (r: bool)
    ensures
        r == text_before(a@, b@),
{
    let x: Vec<char> = chars_of(a);
    let y: Vec<char> = chars_of(b);
    let mut i: usize = 0;
    while i < x.len() && i < y.len()
        invariant
            x@ == a@,
            y@ == b@,
            i <= x.len(),
            i <= y.len(),
            x@.subrange(0, i as int) == y@.subrange(0, i as int),
        decreases x.len() - i,
    {
        proof {
            lemma_before_at(a@, b@, i as int);
        }
        if x[i] != y[i] {
            return x[i] < y[i];
        }
        i += 1;
        assert(x@.subrange(0, i as int) == x@.subrange(0, i - 1).push(x@[i - 1]));
        assert(y@.subrange(0, i as int) == y@.subrange(0, i - 1).push(y@[i - 1]));
    }
    proof {
        lemma_before_at(a@, b@, i as int);
    }
    i < y.len()
}

/// Texts by name, each name once, in the order of the names.
#[derive(Clone, Debug, PartialEq, Eq)]
pub struct NamedTexts {
    /// The pairs, in increasing order of their names.
    pub pairs: Vec<(String, String)>,
}

/// The pairs as characters.
pub open spec fn pair_texts(pairs: Seq<(String, String)>) -> Seq<(Seq<char>, Seq<char>)> {
    Seq::new(pairs.len(), |i: int| (pairs[i].0@, pairs[i].1@))
}

/// Whether the names increase.
pub open spec fn ordered(pairs: Seq<(Seq<char>, Seq<char>)>) -> bool {
    forall|i: int, j: int|
        0 <= i < j < pairs.len() ==> text_before((#[trigger] pairs[i]).0, (#[trigger] pairs[j]).0)
}

/// Whether `name` is among the pairs.
pub open spec fn has_name(pairs: Seq<(Seq<char>, Seq<char>)>, name: Seq<char>) -> bool {
    exists|i: int| 0 <= i < pairs.len() && (#[trigger] pairs[i]).0 == name
}

/// The map that pairs with one text for each name are.
pub open spec fn map_of(pairs: Seq<(Seq<char>, Seq<char>)>) -> Map<Seq<char>, Seq<char>> {
    Map::new(
        |name: Seq<char>| has_name(pairs, name),
        |name: Seq<char>|
            pairs[choose|i: int| 0 <= i < pairs.len() && (#[trigger] pairs[i]).0 == name].1,
    )
}

impl View for NamedTexts {
    type V = Map<Seq<char>, Seq<char>>;

    open spec fn view(&self) -> Map<Seq<char>, Seq<char>> {
        map_of(pair_texts(self.pairs@))
    }
}

proof fn lemma_map_at(pairs: Seq<(Seq<char>, Seq<char>)>, i: int)
    requires
        ordered(pairs),
        0 <= i < pairs.len(),
    ensures
        map_of(pairs).contains_key(pairs[i].0),
        map_of(pairs)[pairs[i].0] == pairs[i].1,
{
    let name = pairs[i].0;
    let k = choose|k: int| 0 <= k < pairs.len() && (#[trigger] pairs[k]).0 == name;
    lemma_before_total(name, name);
    if k < i {
        assert(text_before(pairs[k].0, pairs[i].0));
    } else if i < k {
        assert(text_before(pairs[i].0, pairs[k].0));
    }
}

impl NamedTexts {
    /// The names increase.
    pub open spec fn wf(&self) -> bool {
        ordered(pair_texts(self.pairs@))
    }

    /// No names.
    #[must_use]
    pub fn new() -> (r: Self)
        ensures
            r.wf(),
            r@ == Map::<Seq<char>, Seq<char>>::empty(),
    {
        let r = NamedTexts { pairs: Vec::new() };
        assert(r@ =~= Map::<Seq<char>, Seq<char>>::empty());
        r
    }

    /// How many names there are.
    #[must_use]
    pub fn len(&self) -> (r: usize)
        requires
            self.wf(),
        ensures
            r == self@.dom().len(),
            self@.dom().finite(),
    {
        proof {
            let pairs = pair_texts(self.pairs@);
            let names = Seq::new(pairs.len(), |i: int| pairs[i].0);
            assert forall|i: int, j: int|
                0 <= i < names.len() && 0 <= j < names.len() && i != j implies names[i]
                != names[j] by {
                lemma_before_total(names[i], names[i]);
                if i < j {
                    assert(text_before(pairs[i].0, pairs[j].0));
                } else {
                    assert(text_before(pairs[j].0, pairs[i].0));
                }
            }
            assert(names.no_duplicates());
            names.unique_seq_to_set();
            assert(names.to_set() =~= self@.dom()) by {
                assert forall|n: Seq<char>| #[trigger] self@.dom().contains(n) implies names.to_set().contains(
                n) by {
                    let i = choose|i: int| 0 <= i < pairs.len() && (#[trigger] pairs[i]).0 == n;
                    assert(names[i] == n);
                }
                assert forall|n: Seq<char>| #[trigger] names.to_set().contains(n) implies self@.dom().contains(
                n) by {
                    let i = choose|i: int| 0 <= i < names.len() && names[i] == n;
                    assert(pairs[i].0 == n);
                }
            }
        }
        self.pairs.len()
    }

    /// The text under `name`.
    #[must_use]
    pub fn get(&self, name: &str) -> (r: Option<&String>)
        requires
            self.wf(),
        ensures
            r is Some <==> self@.contains_key(name@),
            r matches Some(t) ==> t@ == self@[name@],
    {
        let ghost pairs = pair_texts(self.pairs@);
        let mut i: usize = 0;
        while i < self.pairs.len()
            invariant
                self.wf(),
                i <= self.pairs@.len(),
                pairs == pair_texts(self.pairs@),
                forall|j: int| 0 <= j < i ==> (#[trigger] pairs[j]).0 != name@,
            decreases self.pairs.len() - i,
        {
            assert(pairs[i as int].0 == self.pairs@[i as int].0@);
            if same(self.pairs[i].0.as_str(), name) {
                proof {
                    lemma_map_at(pairs, i as int);
                }
                return Some(&self.pairs[i].1);
            }
            i += 1;
        }
        None
    }

    /// Put `text` under `name`, in place of what stood there.
    pub fn insert(&mut self, name: String, text: String)
        requires
            old(self).wf(),
        ensures
            final(self).wf(),
            final(self)@ == old(self)@.insert(name@, text@),
    {
        let ghost before = pair_texts(self.pairs@);
        let mut i: usize = 0;
        while i < self.pairs.len() && is_before(self.pairs[i].0.as_str(), name.as_str())
            invariant
                self.wf(),
                i <= self.pairs@.len(),
                before == pair_texts(self.pairs@),
                forall|j: int| 0 <= j < i ==> text_before((#[trigger] before[j]).0, name@),
            decreases self.pairs.len() - i,
        {
            assert(before[i as int].0 == self.pairs@[i as int].0@);
            i += 1;
        }
        let ghost pair = (name@, text@);
        if i < self.pairs.len() && same(self.pairs[i].0.as_str(), name.as_str()) {
            self.pairs[i] = (name, text);
            proof {
                assert(before[i as int].0 == name@);
                let after = pair_texts(self.pairs@);
                assert(after == before.update(i as int, pair));
                lemma_updated(before, i as int, pair);
            }
        } else {
            proof {
                if i < before.len() {
                    assert(before[i as int].0 == self.pairs@[i as int].0@);
                    lemma_before_total(before[i as int].0, name@);
                    assert forall|j: int| i <= j < before.len() implies text_before(
                        name@,
                        (#[trigger] before[j]).0,
                    ) by {
                        if i < j {
                            assert(text_before(before[i as int].0, before[j].0));
                            lemma_before_transitive(name@, before[i as int].0, before[j].0);
                        }
                    }
                }
            }
            self.pairs.insert(i, (name, text));
            proof {
                let after = pair_texts(self.pairs@);
                assert(after == before.insert(i as int, pair));
                lemma_inserted(before, i as int, pair);
            }
        }
    }
}

proof fn lemma_updated(before: Seq<(Seq<char>, Seq<char>)>, i: int, pair: (Seq<char>, Seq<char>))
    requires
        ordered(before),
        0 <= i < before.len(),
        before[i].0 == pair.0,
    ensures
        ordered(before.update(i, pair)),
        map_of(before.update(i, pair)) == map_of(before).insert(pair.0, pair.1),
{
    let after = before.update(i, pair);
    assert forall|j: int, k: int| 0 <= j < k < after.len() implies text_before(
        (#[trigger] after[j]).0,
        (#[trigger] after[k]).0,
    ) by {
        assert(text_before(before[j].0, before[k].0));
    }
    assert(after[i] == pair);
    assert forall|j: int|
        0 <= j < before.len() && (#[trigger] before[j]).0 != pair.0 implies exists|k: int|
        0 <= k < after.len() && #[trigger] after[k] == before[j] by {
        assert(after[j] == before[j]);
    }
    assert forall|k: int| 0 <= k < after.len() && (#[trigger] after[k]) != pair implies exists|j: int|
        0 <= j < before.len() && #[trigger] before[j] == after[k] by {
        assert(after[k] == before[k]);
    }
    lemma_same_map(after, map_of(before).insert(pair.0, pair.1), before, pair);
}

proof fn lemma_inserted(before: Seq<(Seq<char>, Seq<char>)>, i: int, pair: (Seq<char>, Seq<char>))
    requires
        ordered(before),
        0 <= i <= before.len(),
        forall|j: int| 0 <= j < i ==> text_before((#[trigger] before[j]).0, pair.0),
        forall|j: int| i <= j < before.len() ==> text_before(pair.0, (#[trigger] before[j]).0),
    ensures
        ordered(before.insert(i, pair)),
        map_of(before.insert(i, pair)) == map_of(before).insert(pair.0, pair.1),
{
    let after = before.insert(i, pair);
    assert forall|j: int, k: int| 0 <= j < k < after.len() implies text_before(
        (#[trigger] after[j]).0,
        (#[trigger] after[k]).0,
    ) by {
        let x = if j < i { j } else { j - 1 };
        let y = if k < i { k } else { k - 1 };
        if j != i && k != i {
            assert(after[j] == before[x] && after[k] == before[y]);
        } else if j == i {
            assert(after[k] == before[y]);
        } else {
            assert(after[j] == before[x]);
        }
    }
    assert(after[i] == pair);
    assert forall|j: int| 0 <= j < before.len() implies exists|k: int|
        0 <= k < after.len() && after[k] == #[trigger] before[j] by {
        let k = if j < i { j } else { j + 1 };
        assert(after[k] == before[j]);
    }
    assert forall|k: int| 0 <= k < after.len() implies after[k] == pair || exists|j: int|
        0 <= j < before.len() && before[j] == #[trigger] after[k] by {
        if k != i {
            let j = if k < i { k } else { k - 1 };
            assert(after[k] == before[j]);
        }
    }
    lemma_same_map(after, map_of(before).insert(pair.0, pair.1), before, pair);
}

proof fn lemma_same_map(
    after: Seq<(Seq<char>, Seq<char>)>,
    target: Map<Seq<char>, Seq<char>>,
    before: Seq<(Seq<char>, Seq<char>)>,
    pair: (Seq<char>, Seq<char>),
)
    requires
        ordered(before),
        ordered(after),
        target == map_of(before).insert(pair.0, pair.1),
        exists|k: int| 0 <= k < after.len() && #[trigger] after[k] == pair,
        forall|j: int|
            0 <= j < before.len() && (#[trigger] before[j]).0 != pair.0 ==> exists|k: int|
                0 <= k < after.len() && #[trigger] after[k] == before[j],
        forall|k: int|
            0 <= k < after.len() && (#[trigger] after[k]) != pair ==> exists|j: int|
                0 <= j < before.len() && #[trigger] before[j] == after[k],
    ensures
        map_of(after) == target,
{
    let m = map_of(after);
    let at = choose|k: int| 0 <= k < after.len() && #[trigger] after[k] == pair;
    lemma_map_at(after, at);
    assert forall|n: Seq<char>| m.contains_key(n) == target.contains_key(n) && (m.contains_key(n)
        ==> m[n] == target[n]) by {
        if m.contains_key(n) {
            let k = choose|k: int| 0 <= k < after.len() && (#[trigger] after[k]).0 == n;
            lemma_map_at(after, k);
            if after[k] != pair {
                let j = choose|j: int| 0 <= j < before.len() && #[trigger] before[j] == after[k];
                lemma_map_at(before, j);
            }
        }
        if target.contains_key(n) && n != pair.0 {
            let j = choose|j: int| 0 <= j < before.len() && (#[trigger] before[j]).0 == n;
            lemma_map_at(before, j);
            let k = choose|k: int| 0 <= k < after.len() && #[trigger] after[k] == before[j];
            lemma_map_at(after, k);
        }
    }
    assert(m =~= target);
}

} // verus!
