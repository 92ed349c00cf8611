//! The words offered for completion: the names of the programs found on the
//! search path, in order and each once, followed by the built-ins.

use crate::text::chars_of;
use vstd::prelude::*;
use vstd::string::*;

verus! {

/// How one text stands to another in the order of texts.
#[derive(Debug, Clone, Copy, PartialEq, Eq)]
pub enum Order {
    Before,
    Same,
    After,
}

/// `a` comes before `b`: at the first place where they differ `a` holds the
/// smaller character, or `a` ends there and `b` goes on.
pub open spec fn precedes(a: Seq<char>, b: Seq<char>) -> bool
    decreases a.len(),
{
    if b.len() == 0 {
        false
    } else if a.len() == 0 {
        true
    } else if a[0] == b[0] {
        precedes(a.drop_first(), b.drop_first())
    } else {
        a[0] < b[0]
    }
}

/// Each name comes before every later one.
pub open spec fn ascending(names: Seq<Seq<char>>) -> bool {
    forall|i: int, j: int| 0 <= i < j < names.len() ==> precedes(names[i], names[j])
}

/// The built-ins, in the order in which they are offered.
pub open spec fn builtins() -> Seq<Seq<char>> {
    seq!["cd"@, "alias"@, "exit"@, "$?"@]
}

/// Two texts that agree on their first `n` characters are ordered by what
/// comes next.
pub proof fn lemma_precedes_after_common_prefix(a: Seq<char>, b: Seq<char>, n: int)
    requires
        0 <= n <= a.len(),
        n <= b.len(),
        forall|k: int| 0 <= k < n ==> a[k] == b[k],
    ensures
        n < a.len() && n < b.len() && a[n] != b[n] ==> (precedes(a, b) <==> a[n] < b[n]),
        n == a.len() ==> (precedes(a, b) <==> n < b.len()),
        n == b.len() ==> !precedes(a, b),
    decreases n,
{
    if n > 0 {
        let x = a.drop_first();
        let y = b.drop_first();
        assert(a[0] == b[0]);
        assert forall|k: int| 0 <= k < n - 1 implies x[k] == y[k] by {
            assert(x[k] == a[k + 1] && y[k] == b[k + 1]);
        }
        lemma_precedes_after_common_prefix(x, y, n - 1);
        if n < a.len() && n < b.len() {
            assert(x[n - 1] == a[n] && y[n - 1] == b[n]);
        }
    }
}

/// No text comes before itself.
pub proof fn lemma_precedes_irreflexive(a: Seq<char>)
    ensures
        !precedes(a, a),
    decreases a.len(),
{
    if a.len() > 0 {
        lemma_precedes_irreflexive(a.drop_first());
    }
}

/// What comes before a text comes before all that the text comes before.
pub proof fn lemma_precedes_transitive(a: Seq<char>, b: Seq<char>, c: Seq<char>)
    requires
        precedes(a, b),
        precedes(b, c),
    ensures
        precedes(a, c),
    decreases a.len(),
{
    if a.len() > 0 && a[0] == b[0] && b[0] == c[0] {
        lemma_precedes_transitive(a.drop_first(), b.drop_first(), c.drop_first());
    }
}

/// Names in ascending order are distinct.
pub proof fn lemma_ascending_names_differ(names: Seq<Seq<char>>)
    requires
        ascending(names),
    ensures
        forall|i: int, j: int| 0 <= i < j < names.len() ==> names[i] != names[j],
{
    assert forall|i: int, j: int| 0 <= i < j < names.len() implies names[i] != names[j] by {
        lemma_precedes_irreflexive(names[i]);
    }
}

/// Compares two texts, given by their characters.
fn compare_chars(x: &Vec<char>, y: &Vec<char>) -> (order: Order)
    ensures
        match order {
            Order::Before => precedes(x@, y@),
            Order::Same => x@ == y@,
            Order::After => precedes(y@, x@),
        },
{
    let mut i: usize = 0;
    while i < x.len() && i < y.len()
        invariant
            i <= x.len(),
            i <= y.len(),
            forall|k: int| 0 <= k < i ==> x[k] == y[k],
        decreases x.len() - i,
    {
        if x[i] != y[i] {
            proof {
                lemma_precedes_after_common_prefix(x@, y@, i as int);
                lemma_precedes_after_common_prefix(y@, x@, i as int);
            }
            return if x[i] < y[i] {
                Order::Before
            } else {
                Order::After
            };
        }
        i += 1;
    }
    proof {
        lemma_precedes_after_common_prefix(x@, y@, i as int);
        lemma_precedes_after_common_prefix(y@, x@, i as int);
    }
    if x.len() < y.len() {
        Order::Before
    } else if y.len() < x.len() {
        Order::After
    } else {
        assert(x@ =~= y@);
        Order::Same
    }
}

/// Says how `a` stands to `b` in the order of texts.
pub fn compare(a: &str, b: &str) -> (order: Order)
    ensures
        match order {
            Order::Before => precedes(a@, b@),
            Order::Same => a@ == b@,
            Order::After => precedes(b@, a@),
        },
{
    let x = chars_of(a);
    let y = chars_of(b);
    compare_chars(&x, &y)
}

/// Enters `name` into names in ascending order, unless it is among them.
pub fn insert_name(names: &mut Vec<String>, name: String)
    requires
        ascending(old(names).deep_view()),
    ensures
        ascending(final(names).deep_view()),
        forall|w: Seq<char>|
            final(names).deep_view().contains(w) <==> old(names).deep_view().contains(w) || w
                == name@,
{
    let ghost before = names.deep_view();
    let key = chars_of(name.as_str());
    let mut low: usize = 0;
    let mut high: usize = names.len();
    while low < high
        invariant
            low <= high <= names.len(),
            names.deep_view() == before,
            *names == *old(names),
            ascending(before),
            key@ == name@,
            forall|k: int| 0 <= k < low ==> precedes(#[trigger] before[k], name@),
            forall|k: int| high <= k < before.len() ==> precedes(name@, #[trigger] before[k]),
        decreases high - low,
    {
        let middle = low + (high - low) / 2;
        let probe = chars_of(names[middle].as_str());
        assert(before[middle as int] == probe@);
        match compare_chars(&probe, &key) {
            Order::Before => {
                assert forall|k: int| 0 <= k < middle + 1 implies precedes(
                    #[trigger] before[k],
                    name@,
                ) by {
                    if k < middle {
                        lemma_precedes_transitive(before[k], before[middle as int], name@);
                    }
                }
                low = middle + 1;
            },
            Order::Same => {
                assert(before.contains(name@));
                return ;
            },
            Order::After => {
                assert forall|k: int| middle <= k < before.len() implies precedes(
                    name@,
                    #[trigger] before[k],
                ) by {
                    if k > middle {
                        lemma_precedes_transitive(name@, before[middle as int], before[k]);
                    }
                }
                high = middle;
            },
        }
    }
    names.insert(low, name);
    proof {
        let after = names.deep_view();
        assert(after =~= before.insert(low as int, name@));
        assert forall|i: int, j: int| 0 <= i < j < after.len() implies precedes(
            after[i],
            after[j],
        ) by {
            if i < low && j > low {
                assert(after[i] == before[i] && after[j] == before[j - 1]);
            } else if i < low && j < low {
                assert(after[i] == before[i] && after[j] == before[j]);
            } else if i > low {
                assert(after[i] == before[i - 1] && after[j] == before[j - 1]);
            } else if i == low {
                assert(after[j] == before[j - 1]);
            } else {
                assert(after[i] == before[i]);
            }
        }
        assert forall|w: Seq<char>| after.contains(w) <==> before.contains(w) || w
            == name@ by {
            if after.contains(w) {
                let i = choose|i: int| 0 <= i < after.len() && after[i] == w;
                if i < low {
                    assert(before[i] == w);
                } else if i > low {
                    assert(before[i - 1] == w);
                }
            }
            if before.contains(w) {
                let i = choose|i: int| 0 <= i < before.len() && before[i] == w;
                if i < low {
                    assert(after[i] == w);
                } else {
                    assert(after[i + 1] == w);
                }
            }
            if w == name@ {
                assert(after[low as int] == w);
            }
        }
    }
}

/// The names that were found, in ascending order and each once.
pub fn sorted_names(found: Vec<String>) -> (names: Vec<String>)
    ensures
        ascending(names.deep_view()),
        forall|w: Seq<char>| names.deep_view().contains(w) <==> found.deep_view().contains(w),
{
    let ghost all = found.deep_view();
    let ghost items = found@;
    let mut names: Vec<String> = Vec::new();
    assert(names.deep_view() =~= Seq::empty());
    for name in it: found
        invariant
            it.seq() == items,
            all.len() == items.len(),
            forall|k: int| 0 <= k < items.len() ==> all[k] == (#[trigger] items[k])@,
            ascending(names.deep_view()),
            forall|w: Seq<char>|
                names.deep_view().contains(w) <==> all.take(it.index() as int).contains(w),
    {
        let ghost seen = all.take(it.index() as int);
        let ghost next = all.take(it.index() + 1);
        proof {
            assert(next =~= seen.push(name@));
            assert forall|w: Seq<char>| next.contains(w) <==> seen.contains(w) || w
                == name@ by {
                if next.contains(w) {
                    let i = choose|i: int| 0 <= i < next.len() && next[i] == w;
                    if i < seen.len() {
                        assert(seen[i] == w);
                    }
                }
                if seen.contains(w) {
                    let i = choose|i: int| 0 <= i < seen.len() && seen[i] == w;
                    assert(next[i] == w);
                }
                if w == name@ {
                    assert(next[seen.len() as int] == w);
                }
            }
        }
        insert_name(&mut names, name);
    }
    assert(all.take(all.len() as int) =~= all);
    names
}

/// The words to offer for completion: the programs, then the built-ins `cd`,
/// `alias`, `exit` and `$?`.
pub fn completion_words(programs: Vec<String>) -> (offered: Vec<String>)
    ensures
        offered.deep_view() == programs.deep_view() + builtins(),
{
    let ghost given = programs.deep_view();
    let mut offered = programs;
    offered.push("cd".to_owned());
    offered.push("alias".to_owned());
    offered.push("exit".to_owned());
    offered.push("$?".to_owned());
    assert(offered.deep_view() =~= given + builtins());
    offered
}

} // verus!
