use vstd::prelude::*;
use vstd::arithmetic::div_mod::lemma_mod_add_multiples_vanish;
use vstd::arithmetic::div_mod::lemma_small_mod;

use crate::scripts::Scripts;
use crate::scripts::strictly_sorted;
use crate::text::contains_str;
use crate::text::is_substring_of;

verus! {

/// The entries whose names contain `query`, kept in their stored order.
pub open spec fn filtered_spec(entries: Seq<(String, String)>, query: Seq<char>) -> Seq<
    (String, String),
>
    decreases entries.len(),
{
    if entries.len() == 0 {
        Seq::empty()
    } else {
        let rest = filtered_spec(entries.drop_last(), query);
        if is_substring_of(query, entries.last().0@) {
            rest.push(entries.last())
        } else {
            rest
        }
    }
}

/// Every filtered entry matches the query and comes from the store, and
/// every matching entry of the store shows up in the filtered list.
pub proof fn lemma_filtered_membership(entries: Seq<(String, String)>, query: Seq<char>)
    ensures
        forall|i: int|
            0 <= i < filtered_spec(entries, query).len() ==> is_substring_of(
                query,
                (#[trigger] filtered_spec(entries, query)[i]).0@,
            ),
        forall|i: int|
            0 <= i < filtered_spec(entries, query).len() ==> entries.contains(
                #[trigger] filtered_spec(entries, query)[i],
            ),
        forall|j: int|
            0 <= j < entries.len() && is_substring_of(query, (#[trigger] entries[j]).0@)
                ==> filtered_spec(entries, query).contains(entries[j]),
    decreases entries.len(),
{
    if entries.len() > 0 {
        let prefix = entries.drop_last();
        lemma_filtered_membership(prefix, query);
        let rest = filtered_spec(prefix, query);
        let f = filtered_spec(entries, query);
        assert forall|i: int| 0 <= i < f.len() implies is_substring_of(query, (#[trigger] f[i]).0@)
            && entries.contains(f[i]) by {
            if i < rest.len() {
                assert(f[i] == rest[i]);
                let k = choose|k: int| 0 <= k < prefix.len() && prefix[k] == rest[i];
                assert(entries[k] == rest[i]);
            } else {
                assert(f[i] == entries.last());
                assert(entries[entries.len() - 1] == entries.last());
            }
        }
        assert forall|j: int|
            0 <= j < entries.len() && is_substring_of(
                query,
                (#[trigger] entries[j]).0@,
            ) implies f.contains(entries[j]) by {
            if j < entries.len() - 1 {
                assert(prefix[j] == entries[j]);
                assert(rest.contains(entries[j]));
                let k = choose|k: int| 0 <= k < rest.len() && rest[k] == entries[j];
                assert(f[k] == entries[j]);
            } else {
                assert(is_substring_of(query, entries.last().0@));
                assert(f[f.len() - 1] == entries[j]);
            }
        }
    }
}

/// Filtering a store that is strictly sorted by name leaves a list that is
/// strictly sorted by name.
pub proof fn lemma_filtered_sorted(entries: Seq<(String, String)>, query: Seq<char>)
    requires
        strictly_sorted(entries),
    ensures
        strictly_sorted(filtered_spec(entries, query)),
    decreases entries.len(),
{
    if entries.len() > 0 {
        let prefix = entries.drop_last();
        assert(strictly_sorted(prefix)) by {
            assert forall|i: int, j: int|
                #![trigger prefix[i], prefix[j]]
                0 <= i < j < prefix.len() implies crate::text::lex_lt(
                prefix[i].0@,
                prefix[j].0@,
            ) by {
                assert(prefix[i] == entries[i]);
                assert(prefix[j] == entries[j]);
            }
        }
        lemma_filtered_sorted(prefix, query);
        lemma_filtered_membership(prefix, query);
        let rest = filtered_spec(prefix, query);
        let f = filtered_spec(entries, query);
        if is_substring_of(query, entries.last().0@) {
            assert forall|i: int, j: int|
                #![trigger f[i], f[j]]
                0 <= i < j < f.len() implies crate::text::lex_lt(f[i].0@, f[j].0@) by {
                if j < rest.len() {
                    assert(f[i] == rest[i]);
                    assert(f[j] == rest[j]);
                } else {
                    assert(f[j] == entries.last());
                    assert(f[i] == rest[i]);
                    assert(prefix.contains(rest[i]));
                    let k = choose|k: int| 0 <= k < prefix.len() && prefix[k] == rest[i];
                    assert(entries[k] == prefix[k]);
                    assert(entries[entries.len() - 1] == entries.last());
                    assert(crate::text::lex_lt(entries[k].0@, entries.last().0@));
                }
            }
        }
    }
}

/// The empty query matches every name, so filtering with it keeps the whole
/// store.
pub proof fn lemma_empty_query_matches_all(entries: Seq<(String, String)>)
    ensures
        filtered_spec(entries, Seq::<char>::empty()) == entries,
    decreases entries.len(),
{
    if entries.len() > 0 {
        lemma_empty_query_matches_all(entries.drop_last());
        let name = entries.last().0@;
        let e = Seq::<char>::empty();
        assert(name.subrange(0, 0 + e.len() as int) =~= e);
        assert(is_substring_of(e, name));
        assert(filtered_spec(entries, Seq::<char>::empty()) =~= entries);
    }
}

/// A name that contains the query extended by one character also contains
/// the query itself.
pub proof fn lemma_substring_of_extended(q: Seq<char>, c: char, hay: Seq<char>)
    requires
        is_substring_of(q.push(c), hay),
    ensures
        is_substring_of(q, hay),
{
    let q2 = q.push(c);
    let i = choose|i: int|
        0 <= i && i + q2.len() <= hay.len() && #[trigger] hay.subrange(i, i + q2.len()) == q2;
    assert forall|k: int| 0 <= k < q.len() implies hay[i + k] == q[k] by {
        assert(hay.subrange(i, i + q2.len())[k] == hay[i + k]);
        assert(q2[k] == q[k]);
    }
    assert(hay.subrange(i, i + q.len()) =~= q);
}

/// Appending a character to the query only narrows the filtered list: every
/// entry matching the longer query already matched the shorter one.
pub proof fn lemma_filter_monotone(entries: Seq<(String, String)>, q: Seq<char>, c: char)
    ensures
        forall|e: (String, String)|
            #[trigger] filtered_spec(entries, q.push(c)).contains(e) ==> filtered_spec(
                entries,
                q,
            ).contains(e),
{
    lemma_filtered_membership(entries, q.push(c));
    lemma_filtered_membership(entries, q);
    let f2 = filtered_spec(entries, q.push(c));
    assert forall|e: (String, String)| #[trigger] f2.contains(e) implies filtered_spec(
        entries,
        q,
    ).contains(e) by {
        let i = choose|i: int| 0 <= i < f2.len() && f2[i] == e;
        assert(is_substring_of(q.push(c), e.0@));
        lemma_substring_of_extended(q, c, e.0@);
        assert(entries.contains(e));
        let j = choose|j: int| 0 <= j < entries.len() && entries[j] == e;
        assert(filtered_spec(entries, q).contains(entries[j]));
    }
}

/// The selection index after moving one row down, wrapping from the last
/// row to the first; on an empty list nothing moves.
pub open spec fn next_index(i: int, n: int) -> int {
    if n == 0 {
        i
    } else if i >= n - 1 {
        0
    } else {
        i + 1
    }
}

/// The selection index after moving one row up, wrapping from the first row
/// to the last; on an empty list nothing moves.
pub open spec fn prev_index(i: int, n: int) -> int {
    if n == 0 {
        i
    } else if i == 0 {
        n - 1
    } else {
        i - 1
    }
}

/// The selection index after moving down `k` times in a row.
pub open spec fn iterate_next(i: int, n: int, k: nat) -> int
    decreases k,
{
    if k == 0 {
        i
    } else {
        iterate_next(next_index(i, n), n, (k - 1) as nat)
    }
}

proof fn lemma_iterate_next_mod(i: int, n: int, k: nat)
    requires
        0 < n,
        0 <= i < n,
    ensures
        iterate_next(i, n, k) == (i + k) % n,
    decreases k,
{
    if k == 0 {
        lemma_small_mod(i as nat, n as nat);
    } else {
        let j = next_index(i, n);
        lemma_iterate_next_mod(j, n, (k - 1) as nat);
        if i >= n - 1 {
            assert(j == 0);
            lemma_mod_add_multiples_vanish(k - 1, n);
            assert((n + (k - 1)) % n == (k - 1) % n);
            assert(i + k == n + (k - 1));
        }
    }
}

/// Moving the selection down once for every row of a non-empty list brings
/// it back to where it started.
pub proof fn lemma_select_next_wraps(i: int, n: int)
    requires
        0 < n,
        0 <= i < n,
    ensures
        iterate_next(i, n, n as nat) == i,
{
    lemma_iterate_next_mod(i, n, n as nat);
    lemma_mod_add_multiples_vanish(i, n);
    assert((n + i) % n == i % n);
    lemma_small_mod(i as nat, n as nat);
}

/// Builds the list of store entries whose names contain `query`.
fn filter_entries(entries: &Vec<(String, String)>, query: &String) -> (r: Vec<(String, String)>)
    ensures
        r@ == filtered_spec(entries@, query@),
{
    let mut shown: Vec<(String, String)> = Vec::new();
    let mut i: usize = 0;
    proof {
        assert(entries@.take(0) =~= Seq::<(String, String)>::empty());
    }
    while i < entries.len()
        invariant
            i <= entries.len(),
            shown@ == filtered_spec(entries@.take(i as int), query@),
        decreases entries.len() - i,
    {
        proof {
            assert(entries@.take(i + 1).drop_last() =~= entries@.take(i as int));
            assert(entries@.take(i + 1).last() == entries@[i as int]);
        }
        if contains_str(entries[i].0.as_str(), query.as_str()) {
            let pair = (entries[i].0.clone(), entries[i].1.clone());
            shown.push(pair);
        }
        i += 1;
    }
    proof {
        assert(entries@.take(entries@.len() as int) =~= entries@);
    }
    shown
}

/// The filtered, selectable view of the script store: which entries the
/// query currently matches and which row is highlighted.
pub struct ScriptTable {
    pub selected: usize,
    pub scripts: Scripts,
    pub filtered: Vec<(String, String)>,
}

impl ScriptTable {
    /// The store is sorted, and on a non-empty filtered list the selection
    /// points at one of its rows.
    pub open spec fn wf(&self) -> bool {
        &&& self.scripts.wf()
        &&& self.filtered@.len() > 0 ==> self.selected < self.filtered@.len()
    }

    /// A fresh table shows the whole store and highlights the first row.
    pub fn new(scripts: Scripts) -> (r: ScriptTable)
        requires
            scripts.wf(),
        ensures
            r.wf(),
            r.scripts == scripts,
            r.filtered@ == scripts.scripts@,
            r.selected == 0,
    {
        let empty_query = String::new();
        let filtered = filter_entries(&scripts.scripts, &empty_query);
        proof {
            lemma_empty_query_matches_all(scripts.scripts@);
        }
        ScriptTable { selected: 0, scripts, filtered }
    }

    /// Moves the highlight one row down, wrapping to the top at the end; on
    /// an empty list nothing changes.
    pub fn next(&mut self)
        requires
            old(self).wf(),
        ensures
            final(self).scripts == old(self).scripts,
            final(self).filtered == old(self).filtered,
            final(self).selected as int == next_index(
                old(self).selected as int,
                old(self).filtered@.len() as int,
            ),
            final(self).wf(),
    {
        if self.filtered.len() == 0 {
            return ;
        }
        let i = if self.selected >= self.filtered.len() - 1 {
            0
        } else {
            self.selected + 1
        };
        self.selected = i;
    }

    /// Moves the highlight one row up, wrapping to the bottom at the top;
    /// on an empty list nothing changes.
    pub fn previous(&mut self)
        requires
            old(self).wf(),
        ensures
            final(self).scripts == old(self).scripts,
            final(self).filtered == old(self).filtered,
            final(self).selected as int == prev_index(
                old(self).selected as int,
                old(self).filtered@.len() as int,
            ),
            final(self).wf(),
    {
        if self.filtered.len() == 0 {
            return ;
        }
        let i = if self.selected == 0 {
            self.filtered.len() - 1
        } else {
            self.selected - 1
        };
        self.selected = i;
    }

    /// Recomputes the filtered list for `input`. The selection is left
    /// alone: the caller decides whether the query changed and the
    /// highlight must return to the first row.
    pub fn filter_results(&mut self, input: String)
        ensures
            final(self).scripts == old(self).scripts,
            final(self).selected == old(self).selected,
            final(self).filtered@ == filtered_spec(old(self).scripts.scripts@, input@),
            old(self).scripts.wf() ==> strictly_sorted(final(self).filtered@),
    {
        let filtered = filter_entries(&self.scripts.scripts, &input);
        proof {
            if old(self).scripts.wf() {
                lemma_filtered_sorted(old(self).scripts.scripts@, input@);
            }
        }
        self.filtered = filtered;
    }

    /// The name of the highlighted row, or nothing while the filtered list
    /// is empty.
    pub fn get_script_name(&self) -> (r: Option<String>)
        requires
            self.wf(),
        ensures
            match r {
                Some(name) => self.filtered@.len() > 0 && name@
                    == self.filtered@[self.selected as int].0@,
                None => self.filtered@.len() == 0,
            },
    {
        if self.filtered.len() == 0 {
            None
        } else {
            Some(self.filtered[self.selected].0.clone())
        }
    }
}

} // verus!
