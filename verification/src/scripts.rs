use vstd::prelude::*;

use crate::text::lemma_lex_lt_asymmetric;
use crate::text::lemma_lex_lt_connected;
use crate::text::lemma_lex_lt_transitive;
use crate::text::lex_lt;
use crate::text::str_cmp;

verus! {

/// The names of `entries` are strictly increasing lexicographically, so the
/// sequence is sorted by name and no name repeats.
pub open spec fn strictly_sorted(entries: Seq<(String, String)>) -> bool {
    forall|i: int, j: int|
        #![trigger entries[i], entries[j]]
        0 <= i < j < entries.len() ==> lex_lt(entries[i].0@, entries[j].0@)
}

/// The command mapped to `name` by `entries`, a later entry overriding an
/// earlier one with the same name.
pub open spec fn lookup(entries: Seq<(String, String)>, name: Seq<char>) -> Option<Seq<char>>
    decreases entries.len(),
{
    if entries.len() == 0 {
        None
    } else if entries.last().0@ == name {
        Some(entries.last().1@)
    } else {
        lookup(entries.drop_last(), name)
    }
}

pub proof fn lemma_sorted_names_distinct(entries: Seq<(String, String)>)
    requires
        strictly_sorted(entries),
    ensures
        forall|i: int, j: int|
            #![trigger entries[i], entries[j]]
            0 <= i < entries.len() && 0 <= j < entries.len() && i != j ==> entries[i].0@
                != entries[j].0@,
{
    assert forall|i: int, j: int|
        #![trigger entries[i], entries[j]]
        0 <= i < entries.len() && 0 <= j < entries.len() && i != j implies entries[i].0@
        != entries[j].0@ by {
        if i < j {
            lemma_lex_lt_asymmetric(entries[i].0@, entries[j].0@);
        } else {
            lemma_lex_lt_asymmetric(entries[j].0@, entries[i].0@);
        }
    }
}

proof fn lemma_lookup_absent(entries: Seq<(String, String)>, name: Seq<char>)
    requires
        forall|i: int| 0 <= i < entries.len() ==> (#[trigger] entries[i]).0@ != name,
    ensures
        lookup(entries, name) is None,
    decreases entries.len(),
{
    if entries.len() > 0 {
        assert(entries.last() == entries[entries.len() - 1]);
        assert forall|i: int| 0 <= i < entries.drop_last().len() implies (#[trigger] entries
            .drop_last()[i]).0@ != name by {
            assert(entries.drop_last()[i] == entries[i]);
        }
        lemma_lookup_absent(entries.drop_last(), name);
    }
}

proof fn lemma_lookup_at(entries: Seq<(String, String)>, i: int)
    requires
        0 <= i < entries.len(),
        forall|j: int|
            0 <= j < entries.len() && j != i ==> (#[trigger] entries[j]).0@ != entries[i].0@,
    ensures
        lookup(entries, entries[i].0@) == Some(entries[i].1@),
    decreases entries.len(),
{
    assert(entries.last() == entries[entries.len() - 1]);
    if i == entries.len() - 1 {
    } else {
        assert(entries.last().0@ != entries[i].0@);
        assert forall|j: int|
            0 <= j < entries.drop_last().len() && j != i implies (#[trigger] entries
            .drop_last()[j]).0@ != entries.drop_last()[i].0@ by {
            assert(entries.drop_last()[j] == entries[j]);
            assert(entries.drop_last()[i] == entries[i]);
        }
        assert(entries.drop_last()[i] == entries[i]);
        lemma_lookup_at(entries.drop_last(), i);
    }
}

proof fn lemma_lookup_take_step(entries: Seq<(String, String)>, idx: int, name: Seq<char>)
    requires
        0 <= idx < entries.len(),
    ensures
        lookup(entries.take(idx + 1), name) == (if entries[idx].0@ == name {
            Some(entries[idx].1@)
        } else {
            lookup(entries.take(idx), name)
        }),
{
    let t = entries.take(idx + 1);
    assert(t.last() == entries[idx]);
    assert(t.drop_last() =~= entries.take(idx));
}

/// The script store: the full name-to-command mapping read from the manifest,
/// held sorted by name.
pub struct Scripts {
    pub scripts: Vec<(String, String)>,
}

/// Where in `items` the entry named `name` belongs: the index of the first
/// name not lexicographically below `name`.
fn find_pos(items: &Vec<(String, String)>, name: &String) -> (pos: usize)
    requires
        strictly_sorted(items@),
    ensures
        pos <= items@.len(),
        forall|k: int| 0 <= k < pos ==> lex_lt((#[trigger] items@[k]).0@, name@),
        pos < items@.len() ==> !lex_lt(items@[pos as int].0@, name@),
{
    let mut pos: usize = 0;
    loop
        invariant
            strictly_sorted(items@),
            pos <= items@.len(),
            forall|k: int| 0 <= k < pos ==> lex_lt((#[trigger] items@[k]).0@, name@),
        decreases items@.len() - pos,
    {
        if pos == items.len() {
            return pos;
        }
        let c = str_cmp(items[pos].0.as_str(), name.as_str());
        if c != -1 {
            return pos;
        }
        pos += 1;
    }
}

/// Puts one manifest entry into the sorted store, overriding the value of an
/// entry already there under the same name.
fn insert_entry(items: &mut Vec<(String, String)>, name: String, value: String)
    requires
        strictly_sorted(old(items)@),
    ensures
        strictly_sorted(final(items)@),
        forall|n: Seq<char>|
            #[trigger] lookup(final(items)@, n) == (if n == name@ {
                Some(value@)
            } else {
                lookup(old(items)@, n)
            }),
{
    let ghost olds = items@;
    let pos = find_pos(items, &name);
    let eq_at_pos: bool = if pos < items.len() {
        str_cmp(items[pos].0.as_str(), name.as_str()) == 0
    } else {
        false
    };
    proof {
        lemma_sorted_names_distinct(olds);
    }
    if eq_at_pos {
        items[pos] = (name, value);
        proof {
            let news = items@;
            assert forall|i: int, j: int|
                #![trigger news[i], news[j]]
                0 <= i < j < news.len() implies lex_lt(news[i].0@, news[j].0@) by {
                assert(news[i].0@ == olds[i].0@);
                assert(news[j].0@ == olds[j].0@);
            }
            assert forall|n: Seq<char>|
                #[trigger] lookup(news, n) == (if n == name@ {
                    Some(value@)
                } else {
                    lookup(olds, n)
                }) by {
                lemma_lookup_any(olds, news, pos as int, name@, value@, n);
            }
        }
    } else {
        proof {
            olds.insert_ensures(pos as int, (name, value));
            assert forall|k: int| 0 <= k < olds.len() implies (#[trigger] olds[k]).0@ != name@ && (
            k >= pos ==> lex_lt(name@, olds[k].0@)) by {
                if k < pos {
                    lemma_lex_lt_asymmetric(olds[k].0@, name@);
                } else {
                    assert(olds[pos as int].0@ != name@);
                    lemma_lex_lt_connected(name@, olds[pos as int].0@);
                    assert(lex_lt(name@, olds[pos as int].0@));
                    if k > pos {
                        lemma_lex_lt_transitive(name@, olds[pos as int].0@, olds[k].0@);
                    }
                    lemma_lex_lt_asymmetric(name@, olds[k].0@);
                }
            }
        }
        items.insert(pos, (name, value));
        proof {
            let news = items@;
            assert forall|i: int, j: int|
                #![trigger news[i], news[j]]
                0 <= i < j < news.len() implies lex_lt(news[i].0@, news[j].0@) by {
                if i < pos && j < pos {
                    assert(news[i] == olds[i]);
                    assert(news[j] == olds[j]);
                } else if i < pos && j == pos {
                    assert(news[i] == olds[i]);
                } else if i == pos {
                    assert(news[j] == olds[j - 1]);
                } else if i > pos {
                    assert(news[i] == olds[i - 1]);
                    assert(news[j] == olds[j - 1]);
                } else {
                    assert(i < pos && j > pos);
                    assert(news[i] == olds[i]);
                    assert(news[j] == olds[j - 1]);
                    if i == j - 1 {
                        assert(false);
                    }
                }
            }
            assert forall|n: Seq<char>|
                #[trigger] lookup(news, n) == (if n == name@ {
                    Some(value@)
                } else {
                    lookup(olds, n)
                }) by {
                lemma_lookup_any_insert(olds, news, pos as int, name@, value@, n);
            }
        }
    }
}

/// After replacing the value at `pos` (whose name is `name`), the mapping is
/// the old mapping with `name` now bound to `value`.
proof fn lemma_lookup_any(
    olds: Seq<(String, String)>,
    news: Seq<(String, String)>,
    pos: int,
    name: Seq<char>,
    value: Seq<char>,
    n: Seq<char>,
)
    requires
        0 <= pos < olds.len(),
        news.len() == olds.len(),
        olds[pos].0@ == name,
        news[pos].0@ == name,
        news[pos].1@ == value,
        forall|k: int| 0 <= k < olds.len() && k != pos ==> #[trigger] news[k] == olds[k],
        forall|i: int, j: int|
            #![trigger olds[i], olds[j]]
            0 <= i < olds.len() && 0 <= j < olds.len() && i != j ==> olds[i].0@ != olds[j].0@,
    ensures
        lookup(news, n) == (if n == name {
            Some(value)
        } else {
            lookup(olds, n)
        }),
{
    assert forall|i: int, j: int|
        #![trigger news[i], news[j]]
        0 <= i < news.len() && 0 <= j < news.len() && i != j implies news[i].0@ != news[j].0@ by {
        assert(news[i].0@ == olds[i].0@);
        assert(news[j].0@ == olds[j].0@);
    }
    if n == name {
        lemma_lookup_at(news, pos);
    } else {
        if exists|k: int| 0 <= k < olds.len() && (#[trigger] olds[k]).0@ == n {
            let k = choose|k: int| 0 <= k < olds.len() && (#[trigger] olds[k]).0@ == n;
            assert(k != pos);
            lemma_lookup_at(olds, k);
            assert(news[k] == olds[k]);
            lemma_lookup_at(news, k);
        } else {
            lemma_lookup_absent(olds, n);
            assert forall|k: int| 0 <= k < news.len() implies (#[trigger] news[k]).0@ != n by {
                if k != pos {
                    assert(news[k] == olds[k]);
                }
            }
            lemma_lookup_absent(news, n);
        }
    }
}

/// After inserting a fresh name at `pos`, the mapping is the old mapping with
/// `name` now bound to `value`.
proof fn lemma_lookup_any_insert(
    olds: Seq<(String, String)>,
    news: Seq<(String, String)>,
    pos: int,
    name: Seq<char>,
    value: Seq<char>,
    n: Seq<char>,
)
    requires
        0 <= pos <= olds.len(),
        news.len() == olds.len() + 1,
        news[pos].0@ == name,
        news[pos].1@ == value,
        forall|k: int| 0 <= k < pos ==> #[trigger] news[k] == olds[k],
        forall|k: int| pos <= k < olds.len() ==> #[trigger] news[k + 1] == olds[k],
        forall|k: int| 0 <= k < olds.len() ==> (#[trigger] olds[k]).0@ != name,
        forall|i: int, j: int|
            #![trigger olds[i], olds[j]]
            0 <= i < olds.len() && 0 <= j < olds.len() && i != j ==> olds[i].0@ != olds[j].0@,
    ensures
        lookup(news, n) == (if n == name {
            Some(value)
        } else {
            lookup(olds, n)
        }),
{
    assert forall|k: int| 0 <= k < news.len() && k != pos implies (#[trigger] news[k]).0@
        != name by {
        if k < pos {
            assert(news[k] == olds[k]);
        } else {
            assert(news[(k - 1) + 1] == olds[k - 1]);
        }
    }
    if n == name {
        lemma_lookup_at(news, pos);
    } else {
        if exists|k: int| 0 <= k < olds.len() && (#[trigger] olds[k]).0@ == n {
            let k = choose|k: int| 0 <= k < olds.len() && (#[trigger] olds[k]).0@ == n;
            lemma_lookup_at(olds, k);
            let k2 = if k < pos {
                k
            } else {
                k + 1
            };
            assert(news[k2] == olds[k]);
            assert forall|j: int| 0 <= j < news.len() && j != k2 implies (#[trigger] news[j]).0@
                != news[k2].0@ by {
                if j == pos {
                } else {
                    let j0 = if j < pos {
                        j
                    } else {
                        j - 1
                    };
                    if j < pos {
                        assert(news[j] == olds[j0]);
                    } else {
                        assert(news[j0 + 1] == olds[j0]);
                    }
                    assert(j0 != k);
                }
            }
            lemma_lookup_at(news, k2);
        } else {
            lemma_lookup_absent(olds, n);
            assert forall|k: int| 0 <= k < news.len() implies (#[trigger] news[k]).0@ != n by {
                if k != pos {
                    let k0 = if k < pos {
                        k
                    } else {
                        k - 1
                    };
                    if k < pos {
                        assert(news[k] == olds[k0]);
                    } else {
                        assert(news[k0 + 1] == olds[k0]);
                    }
                }
            }
            lemma_lookup_absent(news, n);
        }
    }
}

impl Scripts {
    /// The store is well formed: its entries stand strictly sorted by name.
    pub open spec fn wf(&self) -> bool {
        strictly_sorted(self.scripts@)
    }

    /// Builds the script store from the manifest entries in the order they
    /// were read. Names come out sorted, and a later duplicate of a name
    /// overrides the earlier entry.
    pub fn new(entries: Vec<(String, String)>) -> (r: Scripts)
        ensures
            r.wf(),
            forall|name: Seq<char>| #[trigger]
                lookup(r.scripts@, name) == lookup(entries@, name),
    {
        let mut items: Vec<(String, String)> = Vec::new();
        let mut idx: usize = 0;
        proof {
            assert(entries@.take(0) =~= Seq::<(String, String)>::empty());
        }
        while idx < entries.len()
            invariant
                idx <= entries.len(),
                strictly_sorted(items@),
                forall|name: Seq<char>| #[trigger]
                    lookup(items@, name) == lookup(entries@.take(idx as int), name),
            decreases entries.len() - idx,
        {
            let name = entries[idx].0.clone();
            let value = entries[idx].1.clone();
            let ghost before = items@;
            insert_entry(&mut items, name, value);
            proof {
                assert forall|n: Seq<char>| #[trigger]
                    lookup(items@, n) == lookup(entries@.take(idx + 1), n) by {
                    lemma_lookup_take_step(entries@, idx as int, n);
                }
            }
            idx += 1;
        }
        proof {
            assert(entries@.take(entries.len() as int) =~= entries@);
        }
        Scripts { scripts: items }
    }
}

} // verus!
