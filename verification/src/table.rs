//! The symbol table: a sequence of bindings from single-character identifier
//! to value, kept with one entry per identifier, and viewed as a `Map`.

use vstd::prelude::*;

verus! {

/// One entry per identifier: no two bindings share a key.
pub open spec fn unique_keys(entries: Seq<(char, i32)>) -> bool {
    forall|i: int, j: int|
        0 <= i < j < entries.len() ==> (#[trigger] entries[i]).0 != (#[trigger] entries[j]).0
}

/// The mapping a sequence of bindings stands for. Later entries win, though
/// with unique keys no entry ever shadows another.
pub open spec fn table_view(entries: Seq<(char, i32)>) -> Map<char, int>
    decreases entries.len(),
{
    if entries.len() == 0 {
        Map::empty()
    } else {
        table_view(entries.drop_last()).insert(entries.last().0, entries.last().1 as int)
    }
}

proof fn lemma_table_view_dom(entries: Seq<(char, i32)>, c: char)
    ensures
        table_view(entries).dom().contains(c) <==> exists|i: int|
            0 <= i < entries.len() && (#[trigger] entries[i]).0 == c,
    decreases entries.len(),
{
    if entries.len() > 0 {
        lemma_table_view_dom(entries.drop_last(), c);
        if entries.last().0 == c {
            assert((entries[entries.len() - 1]).0 == c);
        } else {
            if table_view(entries).dom().contains(c) {
                let i = choose|i: int|
                    0 <= i < entries.drop_last().len() && (#[trigger] entries.drop_last()[i]).0
                        == c;
                assert((entries[i]).0 == c);
            }
            if exists|i: int| 0 <= i < entries.len() && (#[trigger] entries[i]).0 == c {
                let i = choose|i: int| 0 <= i < entries.len() && (#[trigger] entries[i]).0 == c;
                assert(i < entries.len() - 1);
                assert((entries.drop_last()[i]).0 == c);
            }
        }
    }
}

proof fn lemma_table_view_entry(entries: Seq<(char, i32)>, i: int)
    requires
        unique_keys(entries),
        0 <= i < entries.len(),
    ensures
        table_view(entries).dom().contains((entries[i]).0),
        table_view(entries)[(entries[i]).0] == (entries[i]).1 as int,
    decreases entries.len(),
{
    if i < entries.len() - 1 {
        assert(unique_keys(entries.drop_last())) by {
            assert forall|p: int, q: int|
                0 <= p < q < entries.drop_last().len() implies (#[trigger] entries.drop_last()[p]).0
                != (#[trigger] entries.drop_last()[q]).0 by {
                assert((entries[p]).0 != (entries[q]).0);
            }
        }
        lemma_table_view_entry(entries.drop_last(), i);
        assert((entries.drop_last()[i]).0 == (entries[i]).0);
        assert(entries.last().0 != (entries[i]).0);
    }
}

proof fn lemma_table_view_update(entries: Seq<(char, i32)>, i: int, v: i32)
    requires
        unique_keys(entries),
        0 <= i < entries.len(),
    ensures
        table_view(entries.update(i, ((entries[i]).0, v))) == table_view(entries).insert(
            (entries[i]).0,
            v as int,
        ),
    decreases entries.len(),
{
    let c = (entries[i]).0;
    let upd = entries.update(i, (c, v));
    if i == entries.len() - 1 {
        assert(upd.drop_last() =~= entries.drop_last());
        assert(upd.last() == (c, v));
        assert(table_view(entries.drop_last()).insert(c, entries.last().1 as int).insert(
            c,
            v as int,
        ) =~= table_view(entries.drop_last()).insert(c, v as int));
    } else {
        assert(unique_keys(entries.drop_last())) by {
            assert forall|p: int, q: int|
                0 <= p < q < entries.drop_last().len() implies (#[trigger] entries.drop_last()[p]).0
                != (#[trigger] entries.drop_last()[q]).0 by {
                assert((entries[p]).0 != (entries[q]).0);
            }
        }
        assert((entries.drop_last()[i]).0 == c);
        lemma_table_view_update(entries.drop_last(), i, v);
        assert(upd.drop_last() =~= entries.drop_last().update(i, (c, v)));
        let k = entries.last().0;
        let w = entries.last().1;
        assert(k != c);
        assert(upd.last() == entries.last());
        assert(table_view(upd) == table_view(entries.drop_last()).insert(c, v as int).insert(
            k,
            w as int,
        ));
        assert(table_view(entries.drop_last()).insert(c, v as int).insert(k, w as int)
            =~= table_view(entries.drop_last()).insert(k, w as int).insert(c, v as int));
    }
}

/// One entry per identifier: in a well-formed table, an identifier in the
/// table's domain is held by exactly one entry, however often it has been
/// re-assigned.
pub proof fn lemma_one_entry_per_identifier(entries: Seq<(char, i32)>, c: char)
    requires
        unique_keys(entries),
        table_view(entries).dom().contains(c),
    ensures
        exists|i: int| 0 <= i < entries.len() && (#[trigger] entries[i]).0 == c,
        forall|i: int, j: int|
            0 <= i < entries.len() && 0 <= j < entries.len() && (#[trigger] entries[i]).0 == c && (
            #[trigger] entries[j]).0 == c ==> i == j,
{
    lemma_table_view_dom(entries, c);
}

/// The value bound to `c`, if any: `Some` exactly on the identifiers in the
/// table's domain, with the value the view gives.
pub fn table_lookup(entries: &Vec<(char, i32)>, c: char) -> (r: Option<i32>)
    requires
        unique_keys(entries@),
    ensures
        match r {
            Some(v) => table_view(entries@).dom().contains(c) && table_view(entries@)[c]
                == v as int,
            None => !table_view(entries@).dom().contains(c),
        },
{
    let n = entries.len();
    let mut i: usize = 0;
    while i < n
        invariant
            n == entries@.len(),
            i <= n,
            unique_keys(entries@),
            forall|j: int| 0 <= j < i ==> (#[trigger] entries@[j]).0 != c,
        decreases n - i,
    {
        let pair = entries[i];
        if pair.0 == c {
            proof {
                lemma_table_view_entry(entries@, i as int);
            }
            return Some(pair.1);
        }
        i += 1;
    }
    proof {
        lemma_table_view_dom(entries@, c);
    }
    None
}

/// Bind or rebind `c`: an existing entry is overwritten in place, a new one is
/// appended, so each identifier keeps exactly one entry.
pub fn table_set(entries: &mut Vec<(char, i32)>, c: char, v: i32)
    requires
        unique_keys(old(entries)@),
    ensures
        unique_keys(final(entries)@),
        table_view(final(entries)@) == table_view(old(entries)@).insert(c, v as int),
{
    let n = entries.len();
    let mut i: usize = 0;
    while i < n
        invariant
            n == entries@.len(),
            i <= n,
            entries@ == old(entries)@,
            unique_keys(old(entries)@),
            forall|j: int| 0 <= j < i ==> (#[trigger] entries@[j]).0 != c,
        decreases n - i,
    {
        let pair = entries[i];
        if pair.0 == c {
            entries[i] = (c, v);
            proof {
                lemma_table_view_update(old(entries)@, i as int, v);
                assert(unique_keys(entries@)) by {
                    assert forall|p: int, q: int|
                        0 <= p < q < entries@.len() implies (#[trigger] entries@[p]).0
                        != (#[trigger] entries@[q]).0 by {
                        assert((old(entries)@[p]).0 != (old(entries)@[q]).0);
                        assert(p == i || entries@[p] == old(entries)@[p]);
                        assert(q == i || entries@[q] == old(entries)@[q]);
                    }
                }
            }
            return;
        }
        i += 1;
    }
    entries.push((c, v));
    proof {
        assert(entries@.drop_last() =~= old(entries)@);
        assert(entries@.last() == (c, v));
        lemma_table_view_dom(old(entries)@, c);
        assert(unique_keys(entries@)) by {
            assert forall|p: int, q: int|
                0 <= p < q < entries@.len() implies (#[trigger] entries@[p]).0
                != (#[trigger] entries@[q]).0 by {
                if q < entries@.len() - 1 {
                    assert((old(entries)@[p]).0 != (old(entries)@[q]).0);
                } else {
                    assert((entries@[p]).0 == (old(entries)@[p]).0);
                }
            }
        }
    }
}

} // verus!
