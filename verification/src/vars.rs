//! The command variables of a channel: a map from names to values, kept in the order of the names.

use crate::text::characters;
use vstd::prelude::*;

verus! {

/// The order of texts: character by character, by code point, a prefix before what it begins.
pub open spec fn precedes(a: Seq<char>, b: Seq<char>) -> bool
    decreases a.len(),
{
    if b.len() == 0 {
        false
    } else if a.len() == 0 {
        true
    } else if a[0] == b[0] {
        precedes(a.skip(1), b.skip(1))
    } else {
        (a[0] as int) < (b[0] as int)
    }
}

/// The value that `pairs` gives to `key`: that of the first pair with this key.
pub open spec fn value_of(pairs: Seq<(Seq<char>, Seq<char>)>, key: Seq<char>) -> Option<Seq<char>>
    decreases pairs.len(),
{
    if pairs.len() == 0 {
        None
    } else if value_of(pairs.drop_last(), key) is Some {
        value_of(pairs.drop_last(), key)
    } else if pairs.last().0 == key {
        Some(pairs.last().1)
    } else {
        None
    }
}

/// How one text stands to another.
enum Place {
    Before,
    Same,
    After,
}

/// Where `a` stands relative to `b`.
fn place(a: &str, b: &str) -> (result: Place)
    ensures
        result is Before <==> precedes(a@, b@),
        result is Same <==> a@ == b@,
        result is After <==> precedes(b@, a@),
{
    let left = characters(a);
    let right = characters(b);
    let mut i: usize = 0;
    assert(left@.skip(0) =~= left@);
    assert(right@.skip(0) =~= right@);
    while i < left.len() && i < right.len() && left[i] == right[i]
        invariant
            i <= left@.len(),
            i <= right@.len(),
            left@.take(i as int) == right@.take(i as int),
            precedes(left@.skip(i as int), right@.skip(i as int)) == precedes(left@, right@),
            precedes(right@.skip(i as int), left@.skip(i as int)) == precedes(right@, left@),
        decreases left@.len() - i,
    {
        assert(left@.skip(i as int).skip(1) =~= left@.skip(i + 1));
        assert(right@.skip(i as int).skip(1) =~= right@.skip(i + 1));
        assert(left@.take(i + 1) =~= left@.take(i as int).push(left@[i as int]));
        assert(right@.take(i + 1) =~= right@.take(i as int).push(right@[i as int]));
        i += 1;
    }
    if i == left.len() {
        if i == right.len() {
            assert(left@.take(i as int) =~= left@);
            assert(right@.take(i as int) =~= right@);
            Place::Same
        } else {
            Place::Before
        }
    } else if i == right.len() {
        Place::After
    } else {
        assert(left@.skip(i as int)[0] != right@.skip(i as int)[0]);
        let l: char = left[i];
        let r: char = right[i];
        if l < r {
            Place::Before
        } else {
            Place::After
        }
    }
}

proof fn precedes_is_transitive(a: Seq<char>, b: Seq<char>, c: Seq<char>)
    requires
        precedes(a, b),
        precedes(b, c),
    ensures
        precedes(a, c),
    decreases a.len(),
{
    if a.len() > 0 && a[0] == b[0] && b[0] == c[0] {
        precedes_is_transitive(a.skip(1), b.skip(1), c.skip(1));
    }
}

/// No text precedes itself.
proof fn precedes_is_irreflexive(a: Seq<char>)
    ensures
        !precedes(a, a),
    decreases a.len(),
{
    if a.len() > 0 {
        precedes_is_irreflexive(a.skip(1));
    }
}

/// Whether the keys of `pairs` are in strict order, so that no key occurs twice.
pub open spec fn ascending(pairs: Seq<(Seq<char>, Seq<char>)>) -> bool {
    forall|i: int, j: int|
        0 <= i < j < pairs.len() ==> precedes(#[trigger] pairs[i].0, #[trigger] pairs[j].0)
}

/// Whether `after` gives `key` the value `value`, and every other key what `before` gives it.
pub open spec fn assigns(
    before: Seq<(Seq<char>, Seq<char>)>,
    key: Seq<char>,
    value: Seq<char>,
    after: Seq<(Seq<char>, Seq<char>)>,
) -> bool {
    forall|k: Seq<char>| #[trigger]
        value_of(after, k) == if k == key {
            Some(value)
        } else {
            value_of(before, k)
        }
}

/// One command variable.
pub struct CommandVar {
    pub key: String,
    pub value: String,
}

impl View for CommandVar {
    type V = (Seq<char>, Seq<char>);

    open spec fn view(&self) -> (Seq<char>, Seq<char>) {
        (self.key@, self.value@)
    }
}

/// Command variables in the order of their names.
pub struct CommandVars {
    entries: Vec<CommandVar>,
}

impl View for CommandVars {
    type V = Seq<(Seq<char>, Seq<char>)>;

    closed spec fn view(&self) -> Seq<(Seq<char>, Seq<char>)> {
        Seq::new(self.entries@.len(), |i: int| self.entries@[i]@)
    }
}

impl CommandVars {
    /// The variables stand in the order of their names, each name once.
    pub open spec fn wf(&self) -> bool {
        ascending(self@)
    }

    /// No variables.
    pub fn new() -> (result: CommandVars)
        ensures
            result.wf(),
            result@ == Seq::<(Seq<char>, Seq<char>)>::empty(),
    {
        CommandVars { entries: Vec::new() }
    }

    /// The number of variables.
    pub fn len(&self) -> (result: usize)
        ensures
            result == self@.len(),
    {
        self.entries.len()
    }

    /// The variable at `index` in the order of the names.
    pub fn get(&self, index: usize) -> (result: &CommandVar)
        requires
            index < self@.len(),
        ensures
            result@ == self@[index as int],
    {
        &self.entries[index]
    }

    /// Gives `key` the value `value`, in place of the one it had, if any.
    pub fn insert(&mut self, key: String, value: String)
        requires
            old(self).wf(),
        ensures
            final(self).wf(),
            assigns(old(self)@, key@, value@, final(self)@),
            forall|k: Seq<char>| #[trigger]
                value_of(final(self)@, k) == if k == key@ {
                    Some(value@)
                } else {
                    value_of(old(self)@, k)
                },
    {
        let ghost before = self@;
        let ghost pair = (key@, value@);
        let mut i: usize = 0;
        while i < self.entries.len()
            invariant
                self@ == before,
                before == old(self)@,
                pair == (key@, value@),
                before.len() == self.entries@.len(),
                i <= before.len(),
                ascending(before),
                forall|k: int| 0 <= k < i ==> precedes((#[trigger] before[k]).0, key@),
            decreases before.len() - i,
        {
            assert(before[i as int] == self.entries@[i as int]@);
            match place(self.entries[i].key.as_str(), key.as_str()) {
                Place::Before => {
                    i += 1;
                },
                Place::Same => {
                    self.entries.set(i, CommandVar { key, value });
                    proof {
                        assert(self@ =~= before.update(i as int, pair));
                        value_of_updated(before, i as int, pair);
                    }
                    return;
                },
                Place::After => {
                    proof {
                        assert forall|j: int| i <= j < before.len() implies precedes(
                            key@,
                            (#[trigger] before[j]).0,
                        ) by {
                            if j > i {
                                precedes_is_transitive(key@, before[i as int].0, before[j].0);
                            }
                        }
                    }
                    self.entries.insert(i, CommandVar { key, value });
                    proof {
                        assert(self@ =~= before.insert(i as int, pair));
                        value_of_inserted(before, i as int, pair);
                    }
                    return;
                },
            }
        }
        self.entries.push(CommandVar { key, value });
        proof {
            assert(self@ =~= before.insert(i as int, pair));
            value_of_inserted(before, i as int, pair);
        }
    }
}

/// The value of a key is that of any pair with the key, where no key occurs twice.
proof fn value_of_member(pairs: Seq<(Seq<char>, Seq<char>)>, i: int)
    requires
        ascending(pairs),
        0 <= i < pairs.len(),
    ensures
        value_of(pairs, pairs[i].0) == Some(pairs[i].1),
    decreases pairs.len(),
{
    let rest = pairs.drop_last();
    if i < pairs.len() - 1 {
        value_of_member(rest, i);
    } else {
        if value_of(rest, pairs[i].0) is Some {
            value_of_witness(rest, pairs[i].0);
            let j = choose|j: int| 0 <= j < rest.len() && (#[trigger] rest[j]).0 == pairs[i].0;
            precedes_is_irreflexive(pairs[i].0);
            assert(precedes(pairs[j].0, pairs[i].0));
        }
    }
}

/// A key has a value only where a pair gives it one.
proof fn value_of_witness(pairs: Seq<(Seq<char>, Seq<char>)>, key: Seq<char>)
    ensures
        value_of(pairs, key) is Some <==> exists|j: int|
            0 <= j < pairs.len() && (#[trigger] pairs[j]).0 == key,
    decreases pairs.len(),
{
    if pairs.len() > 0 {
        let rest = pairs.drop_last();
        value_of_witness(rest, key);
        if value_of(rest, key) is Some {
            let j = choose|j: int| 0 <= j < rest.len() && (#[trigger] rest[j]).0 == key;
            assert(pairs[j].0 == key);
        } else if exists|j: int| 0 <= j < pairs.len() && (#[trigger] pairs[j]).0 == key {
            let j = choose|j: int| 0 <= j < pairs.len() && (#[trigger] pairs[j]).0 == key;
            if j < rest.len() {
                assert(rest[j].0 == key);
            }
        }
        if pairs.last().0 == key {
            assert(pairs[pairs.len() - 1].0 == key);
        }
    }
}

/// Two sequences of pairs without repeated keys that hold the same pair for a key, or none, give
/// it the same value.
proof fn value_of_same(
    a: Seq<(Seq<char>, Seq<char>)>,
    b: Seq<(Seq<char>, Seq<char>)>,
    key: Seq<char>,
)
    requires
        ascending(a),
        ascending(b),
        forall|value: Seq<char>| #[trigger] a.contains((key, value)) ==> b.contains((key, value)),
        forall|value: Seq<char>| #[trigger] b.contains((key, value)) ==> a.contains((key, value)),
    ensures
        value_of(a, key) == value_of(b, key),
{
    value_of_witness(a, key);
    value_of_witness(b, key);
    if value_of(a, key) is Some {
        let i = choose|i: int| 0 <= i < a.len() && (#[trigger] a[i]).0 == key;
        assert(a.contains((key, a[i].1)));
        assert(b.contains((key, a[i].1)));
        let j = choose|j: int| 0 <= j < b.len() && b[j] == (key, a[i].1);
        value_of_member(a, i);
        value_of_member(b, j);
    } else if value_of(b, key) is Some {
        let j = choose|j: int| 0 <= j < b.len() && (#[trigger] b[j]).0 == key;
        assert(b.contains((key, b[j].1)));
        assert(a.contains((key, b[j].1)));
        let i = choose|i: int| 0 <= i < a.len() && a[i] == (key, b[j].1);
        assert(a[i].0 == key);
    }
}

/// Exchanging the value of a key changes the value of this key alone.
proof fn value_of_updated(
    pairs: Seq<(Seq<char>, Seq<char>)>,
    at: int,
    pair: (Seq<char>, Seq<char>),
)
    requires
        ascending(pairs),
        0 <= at < pairs.len(),
        pairs[at].0 == pair.0,
    ensures
        ascending(pairs.update(at, pair)),
        forall|k: Seq<char>| #[trigger]
            value_of(pairs.update(at, pair), k) == if k == pair.0 {
                Some(pair.1)
            } else {
                value_of(pairs, k)
            },
{
    let after = pairs.update(at, pair);
    assert(ascending(after)) by {
        assert forall|i: int, j: int| 0 <= i < j < after.len() implies precedes(
            #[trigger] after[i].0,
            #[trigger] after[j].0,
        ) by {
            assert(precedes(pairs[i].0, pairs[j].0));
        }
    }
    assert forall|k: Seq<char>| #[trigger]
        value_of(after, k) == if k == pair.0 {
            Some(pair.1)
        } else {
            value_of(pairs, k)
        } by {
        if k == pair.0 {
            assert(after[at] == pair);
            value_of_member(after, at);
        } else {
            assert forall|v: Seq<char>| #[trigger] after.contains((k, v)) implies pairs.contains(
                (k, v),
            ) by {
                let i = choose|i: int| 0 <= i < after.len() && after[i] == (k, v);
                assert(pairs[i] == (k, v));
            }
            assert forall|v: Seq<char>| #[trigger] pairs.contains((k, v)) implies after.contains(
                (k, v),
            ) by {
                let j = choose|j: int| 0 <= j < pairs.len() && pairs[j] == (k, v);
                assert(after[j] == (k, v));
            }
            value_of_same(after, pairs, k);
        }
    }
}

/// A pair set in at its place gives its key a value and leaves the others theirs.
proof fn value_of_inserted(
    pairs: Seq<(Seq<char>, Seq<char>)>,
    at: int,
    pair: (Seq<char>, Seq<char>),
)
    requires
        ascending(pairs),
        0 <= at <= pairs.len(),
        forall|k: int| 0 <= k < at ==> precedes((#[trigger] pairs[k]).0, pair.0),
        forall|k: int| at <= k < pairs.len() ==> precedes(pair.0, (#[trigger] pairs[k]).0),
    ensures
        ascending(pairs.insert(at, pair)),
        forall|k: Seq<char>| #[trigger]
            value_of(pairs.insert(at, pair), k) == if k == pair.0 {
                Some(pair.1)
            } else {
                value_of(pairs, k)
            },
{
    let after = pairs.insert(at, pair);
    assert(ascending(after)) by {
        assert forall|i: int, j: int| 0 <= i < j < after.len() implies precedes(
            #[trigger] after[i].0,
            #[trigger] after[j].0,
        ) by {
            let before_i = if i < at { i } else { i - 1 };
            let before_j = if j < at { j } else { j - 1 };
            if i != at && j != at {
                assert(after[i] == pairs[before_i]);
                assert(after[j] == pairs[before_j]);
                assert(precedes(pairs[before_i].0, pairs[before_j].0));
            } else if i == at {
                assert(after[j] == pairs[before_j]);
            } else {
                assert(after[i] == pairs[before_i]);
            }
        }
    }
    assert forall|k: Seq<char>| #[trigger]
        value_of(after, k) == if k == pair.0 {
            Some(pair.1)
        } else {
            value_of(pairs, k)
        } by {
        if k == pair.0 {
            assert(after[at] == pair);
            value_of_member(after, at);
        } else {
            assert forall|v: Seq<char>| #[trigger] after.contains((k, v)) implies pairs.contains(
                (k, v),
            ) by {
                let i = choose|i: int| 0 <= i < after.len() && after[i] == (k, v);
                assert(pairs[if i < at { i } else { i - 1 }] == (k, v));
            }
            assert forall|v: Seq<char>| #[trigger] pairs.contains((k, v)) implies after.contains(
                (k, v),
            ) by {
                let j = choose|j: int| 0 <= j < pairs.len() && pairs[j] == (k, v);
                assert(after[if j < at { j } else { j + 1 }] == (k, v));
            }
            value_of_same(after, pairs, k);
        }
    }
}

/// The values of the names determine the variables: two sequences in order that give every name
/// the same value are the same.
pub proof fn values_determine_variables(
    a: Seq<(Seq<char>, Seq<char>)>,
    b: Seq<(Seq<char>, Seq<char>)>,
)
    requires
        ascending(a),
        ascending(b),
        forall|k: Seq<char>| #[trigger] value_of(a, k) == value_of(b, k),
    ensures
        a == b,
    decreases a.len(),
{
    if a.len() == 0 {
        if b.len() > 0 {
            value_of_member(b, 0);
            assert(value_of(a, b[0].0) is None);
        }
    } else {
        let last_a = a.len() - 1;
        value_of_member(a, last_a);
        value_of_witness(b, a[last_a].0);
        let j = choose|j: int| 0 <= j < b.len() && (#[trigger] b[j]).0 == a[last_a].0;
        let last_b = b.len() - 1;
        value_of_member(b, last_b);
        assert(value_of(a, b[last_b].0) is Some);
        value_of_witness(a, b[last_b].0);
        let i = choose|i: int| 0 <= i < a.len() && (#[trigger] a[i]).0 == b[last_b].0;
        precedes_is_irreflexive(a[last_a].0);
        if j < last_b {
            assert(precedes(b[j].0, b[last_b].0));
            if i < last_a {
                assert(precedes(a[i].0, a[last_a].0));
                precedes_is_transitive(a[last_a].0, b[last_b].0, a[last_a].0);
            }
        }
        assert(a[last_a] == b[last_b]);
        let rest_a = a.drop_last();
        let rest_b = b.drop_last();
        assert forall|k: Seq<char>| #[trigger] value_of(rest_a, k) == value_of(rest_b, k) by {
            assert(value_of(a, k) == value_of(b, k));
            if k == a[last_a].0 {
                value_of_witness(rest_a, k);
                value_of_witness(rest_b, k);
                assert forall|n: int| 0 <= n < rest_a.len() implies (#[trigger] rest_a[n]).0
                    != k by {
                    assert(precedes(a[n].0, a[last_a].0));
                }
                assert forall|n: int| 0 <= n < rest_b.len() implies (#[trigger] rest_b[n]).0
                    != k by {
                    assert(precedes(b[n].0, b[last_b].0));
                }
            }
        }
        values_determine_variables(rest_a, rest_b);
        assert(a =~= rest_a.push(a[last_a]));
        assert(b =~= rest_b.push(b[last_b]));
    }
}

/// Whether two texts agree up to `at`, and `a` ends there while `b` goes on, or has there the
/// character with the lower code point.
pub open spec fn parts_at(a: Seq<char>, b: Seq<char>, at: int) -> bool {
    &&& 0 <= at <= a.len()
    &&& at < b.len()
    &&& forall|k: int| 0 <= k < at ==> #[trigger] a[k] == b[k]
    &&& at < a.len() ==> (a[at] as int) < (b[at] as int)
}

/// A text precedes another exactly where, at the first place at which they differ, it ends or has
/// the lower character.
pub proof fn order_is_by_first_difference(a: Seq<char>, b: Seq<char>)
    ensures
        precedes(a, b) <==> exists|at: int| parts_at(a, b, at),
    decreases a.len(),
{
    if b.len() > 0 && a.len() > 0 && a[0] == b[0] {
        let (x, y) = (a.skip(1), b.skip(1));
        order_is_by_first_difference(x, y);
        if precedes(a, b) {
            let at = choose|at: int| parts_at(x, y, at);
            assert forall|k: int| 0 <= k < at + 1 implies #[trigger] a[k] == b[k] by {
                if k > 0 {
                    assert(x[k - 1] == y[k - 1]);
                }
            }
            assert(parts_at(a, b, at + 1));
        }
        if exists|at: int| parts_at(a, b, at) {
            let at = choose|at: int| parts_at(a, b, at);
            assert forall|k: int| 0 <= k < at - 1 implies #[trigger] x[k] == y[k] by {
                assert(a[k + 1] == b[k + 1]);
            }
            assert(parts_at(x, y, at - 1));
        }
    } else {
        if precedes(a, b) {
            assert(parts_at(a, b, 0));
        }
        if exists|at: int| parts_at(a, b, at) {
            let at = choose|at: int| parts_at(a, b, at);
            if at > 0 {
                assert(a[0] == b[0]);
            }
        }
    }
}

/// Of two variables, the one that stands first has the lower name.
pub proof fn variables_stand_in_order(pairs: Seq<(Seq<char>, Seq<char>)>, i: int, j: int)
    requires
        ascending(pairs),
        0 <= i < j < pairs.len(),
    ensures
        exists|at: int| parts_at(pairs[i].0, pairs[j].0, at),
        pairs[i].0 != pairs[j].0,
{
    assert(precedes(pairs[i].0, pairs[j].0));
    order_is_by_first_difference(pairs[i].0, pairs[j].0);
    precedes_is_irreflexive(pairs[i].0);
}

/// Names that stand so that each differs from every later one at its first difference by coming
/// before it are in order.
pub proof fn ordered_names_are_ascending(pairs: Seq<(Seq<char>, Seq<char>)>)
    requires
        forall|i: int, j: int|
            0 <= i < j < pairs.len() ==> exists|at: int|
                parts_at(#[trigger] pairs[i].0, #[trigger] pairs[j].0, at),
    ensures
        ascending(pairs),
{
    assert forall|i: int, j: int| 0 <= i < j < pairs.len() implies precedes(
        #[trigger] pairs[i].0,
        #[trigger] pairs[j].0,
    ) by {
        order_is_by_first_difference(pairs[i].0, pairs[j].0);
    }
}

/// The value of a key is that of the first pair with the key.
pub proof fn first_pair_gives_the_value(pairs: Seq<(Seq<char>, Seq<char>)>, i: int)
    requires
        0 <= i < pairs.len(),
        forall|j: int| 0 <= j < i ==> (#[trigger] pairs[j]).0 != pairs[i].0,
    ensures
        value_of(pairs, pairs[i].0) == Some(pairs[i].1),
    decreases pairs.len(),
{
    let earlier = pairs.drop_last();
    if i < earlier.len() {
        assert forall|j: int| 0 <= j < i implies (#[trigger] earlier[j]).0 != earlier[i].0 by {
            assert(earlier[j] == pairs[j]);
        }
        first_pair_gives_the_value(earlier, i);
    } else {
        assert forall|j: int| 0 <= j < earlier.len() implies (#[trigger] earlier[j]).0
            != pairs[i].0 by {
            assert(earlier[j] == pairs[j]);
        }
        other_keys_have_no_value(earlier, pairs[i].0);
    }
}

/// A key that no pair has, has no value.
pub proof fn other_keys_have_no_value(pairs: Seq<(Seq<char>, Seq<char>)>, key: Seq<char>)
    requires
        forall|j: int| 0 <= j < pairs.len() ==> (#[trigger] pairs[j]).0 != key,
    ensures
        value_of(pairs, key) is None,
    decreases pairs.len(),
{
    if pairs.len() > 0 {
        let earlier = pairs.drop_last();
        assert forall|j: int| 0 <= j < earlier.len() implies (#[trigger] earlier[j]).0 != key by {
            assert(earlier[j] == pairs[j]);
        }
        other_keys_have_no_value(earlier, key);
        assert(pairs[pairs.len() - 1].0 != key);
    }
}

/// After a variable was given a value, that is the only one of its name, and the others are those
/// that were there before.
pub proof fn inserting_changes_one_variable(
    before: Seq<(Seq<char>, Seq<char>)>,
    key: Seq<char>,
    value: Seq<char>,
    after: Seq<(Seq<char>, Seq<char>)>,
    pair: (Seq<char>, Seq<char>),
)
    requires
        ascending(before),
        ascending(after),
        assigns(before, key, value, after),
    ensures
        after.contains(pair) <==> if pair.0 == key {
            pair.1 == value
        } else {
            before.contains(pair)
        },
{
    holds_its_value(before, pair);
    holds_its_value(after, pair);
    assert(value_of(after, pair.0) == if pair.0 == key {
        Some(value)
    } else {
        value_of(before, pair.0)
    });
}

/// Where no key occurs twice, a pair is there exactly where its key has its value.
proof fn holds_its_value(pairs: Seq<(Seq<char>, Seq<char>)>, pair: (Seq<char>, Seq<char>))
    requires
        ascending(pairs),
    ensures
        pairs.contains(pair) <==> value_of(pairs, pair.0) == Some(pair.1),
{
    if pairs.contains(pair) {
        let i = choose|i: int| 0 <= i < pairs.len() && pairs[i] == pair;
        value_of_member(pairs, i);
    }
    if value_of(pairs, pair.0) == Some(pair.1) {
        value_of_witness(pairs, pair.0);
        let j = choose|j: int| 0 <= j < pairs.len() && (#[trigger] pairs[j]).0 == pair.0;
        value_of_member(pairs, j);
        assert(pairs[j] == pair);
    }
}

/// A variable is its key and its value.
pub proof fn variables_are_keys_with_values(var: CommandVar)
    ensures
        var@.0 == var.key@,
        var@.1 == var.value@,
{
}

} // verus!
