//! Global laws of a compiled table: the ordering of the index tables, the
//! partition shape of the oxidation-state runs, and the injectivity of
//! symbols and lowercased names that makes lookup by an element's own key
//! return that element.
use vstd::prelude::*;

use crate::element::Element;
use crate::index::has_entry;
use crate::table::PeriodicTable;
use crate::text::{lemma_lex_asym, lex_lt, lower};

verus! {

/// Looking an element up by its atomic number and reading the atomic number
/// back yields the starting point: any element that meets the contract of
/// `Element::from_atomic_number` for a number in `[1, 118]` reports, through
/// the contract of `Element::get_atomic_number`, exactly that number.
pub proof fn lemma_atomic_number_roundtrip(z: int, e: Element)
    requires
        1 <= z <= 118,
        e.spec_id() == z - 1,
    ensures
        e.wf(),
        e.spec_id() + 1 == z,
{
}

/// Sum of the per-element run counts.
pub open spec fn sum_counts(runs: Seq<(int, int)>) -> int
    decreases runs.len(),
{
    if runs.len() == 0 {
        0
    } else {
        sum_counts(runs.drop_last()) + runs.last().1
    }
}

/// The symbol index table is strictly ascending with no duplicate keys, and
/// each entry pairs its key with the element whose symbol the key is.
pub proof fn lemma_symbol_index_sorted(t: PeriodicTable)
    requires
        t.wf(),
    ensures
        t.spec_sym_index().len() == 118,
        forall|i: int, j: int|
            0 <= i < j < 118 ==> lex_lt(
                (#[trigger] t.spec_sym_index()[i]).0,
                (#[trigger] t.spec_sym_index()[j]).0,
            ),
        forall|i: int, j: int|
            0 <= i < j < 118 ==> (#[trigger] t.spec_sym_index()[i]).0 != (
            #[trigger] t.spec_sym_index()[j]).0,
        forall|j: int|
            0 <= j < 118 ==> 0 <= (#[trigger] t.spec_sym_index()[j]).1 < 118
                && t.spec_sym_index()[j].0 == t@.symbols[t.spec_sym_index()[j].1],
{
    assert forall|i: int, j: int| 0 <= i < j < 118 implies lex_lt(
        (#[trigger] t.spec_sym_index()[i]).0,
        (#[trigger] t.spec_sym_index()[j]).0,
    ) && (t.spec_sym_index()[i]).0 != (t.spec_sym_index()[j]).0 by {
        assert(lex_lt(t.sym_index@[i].0@, t.sym_index@[j].0@));
        lemma_lex_asym(t.sym_index@[i].0@, t.sym_index@[j].0@);
    }
}

/// The lowercase-name index table is strictly ascending with no duplicate
/// keys, and each entry pairs its key with the element whose lowercased name
/// the key is.
pub proof fn lemma_name_index_sorted(t: PeriodicTable)
    requires
        t.wf(),
    ensures
        t.spec_name_index().len() == 118,
        forall|i: int, j: int|
            0 <= i < j < 118 ==> lex_lt(
                (#[trigger] t.spec_name_index()[i]).0,
                (#[trigger] t.spec_name_index()[j]).0,
            ),
        forall|i: int, j: int|
            0 <= i < j < 118 ==> (#[trigger] t.spec_name_index()[i]).0 != (
            #[trigger] t.spec_name_index()[j]).0,
        forall|j: int|
            0 <= j < 118 ==> 0 <= (#[trigger] t.spec_name_index()[j]).1 < 118
                && t.spec_name_index()[j].0 == lower(t@.names[t.spec_name_index()[j].1]),
{
    assert forall|i: int, j: int| 0 <= i < j < 118 implies lex_lt(
        (#[trigger] t.spec_name_index()[i]).0,
        (#[trigger] t.spec_name_index()[j]).0,
    ) && (t.spec_name_index()[i]).0 != (t.spec_name_index()[j]).0 by {
        assert(lex_lt(t.name_index@[i].0@, t.name_index@[j].0@));
        lemma_lex_asym(t.name_index@[i].0@, t.name_index@[j].0@);
    }
    assert forall|j: int| 0 <= j < 118 implies 0 <= (#[trigger] t.spec_name_index()[j]).1 < 118
        && t.spec_name_index()[j].0 == lower(t@.names[t.spec_name_index()[j].1]) by {
        assert(t.name_index@[j].0@ == crate::table::lower_all(t.names.deep_view())[t.name_index@[j].1 as int]);
    }
}

proof fn lemma_run_end_le_start(runs: Seq<(int, int)>, i: int, j: int)
    requires
        forall|k: int|
            0 <= k < runs.len() - 1 ==> (#[trigger] runs[k + 1]).0 == runs[k].0 + runs[k].1,
        forall|k: int| 0 <= k < runs.len() ==> (#[trigger] runs[k]).1 >= 0,
        0 <= i < j < runs.len(),
    ensures
        runs[i].0 + runs[i].1 <= runs[j].0,
    decreases j - i,
{
    if j > i + 1 {
        lemma_run_end_le_start(runs, i, j - 1);
        assert(runs[j - 1 + 1].0 == runs[j - 1].0 + runs[j - 1].1);
        assert(runs[j - 1].1 >= 0);
    } else {
        assert(runs[i + 1].0 == runs[i].0 + runs[i].1);
    }
}

proof fn lemma_sum_prefix(runs: Seq<(int, int)>, k: int)
    requires
        forall|j: int|
            0 <= j < runs.len() - 1 ==> (#[trigger] runs[j + 1]).0 == runs[j].0 + runs[j].1,
        runs.len() > 0 ==> runs[0].0 == 0,
        1 <= k <= runs.len(),
    ensures
        sum_counts(runs.take(k)) == runs[k - 1].0 + runs[k - 1].1,
    decreases k,
{
    assert(runs.take(k).drop_last() =~= runs.take(k - 1));
    assert(runs.take(k).last() == runs[k - 1]);
    if k > 1 {
        lemma_sum_prefix(runs, k - 1);
        assert(runs[k - 2 + 1].0 == runs[k - 2].0 + runs[k - 2].1);
    } else {
        assert(runs.take(0) =~= Seq::<(int, int)>::empty());
        assert(sum_counts(Seq::<(int, int)>::empty()) == 0);
    }
}

/// The oxidation-state runs partition the flat array: they are contiguous,
/// in bounds, pairwise non-overlapping in atomic-number order, and the total
/// length of the flat array is the sum of all 118 per-element counts; each
/// element's slice is exactly its run.
pub proof fn lemma_runs_partition(t: PeriodicTable)
    requires
        t.wf(),
    ensures
        t.spec_ox_runs().len() == 118,
        t.spec_ox_runs()[0].0 == 0,
        forall|j: int|
            0 <= j < 117 ==> (#[trigger] t.spec_ox_runs()[j + 1]).0 == t.spec_ox_runs()[j].0
                + t.spec_ox_runs()[j].1,
        forall|j: int|
            0 <= j < 118 ==> 0 <= (#[trigger] t.spec_ox_runs()[j]).0 && 0 <= t.spec_ox_runs()[j].1
                && t.spec_ox_runs()[j].0 + t.spec_ox_runs()[j].1 <= t.spec_ox_flat().len(),
        forall|i: int, j: int|
            0 <= i < j < 118 ==> (#[trigger] t.spec_ox_runs()[i]).0 + t.spec_ox_runs()[i].1 <= (
            #[trigger] t.spec_ox_runs()[j]).0,
        sum_counts(t.spec_ox_runs()) == t.spec_ox_flat().len(),
        forall|j: int|
            0 <= j < 118 ==> t@.ox[j] == t.spec_ox_flat().subrange(
                (#[trigger] t.spec_ox_runs()[j]).0,
                t.spec_ox_runs()[j].0 + t.spec_ox_runs()[j].1,
            ),
{
    let runs = t.spec_ox_runs();
    assert forall|j: int| 0 <= j < 117 implies (#[trigger] runs[j + 1]).0 == runs[j].0
        + runs[j].1 by {
        assert((#[trigger] t.ox_runs@[j + 1]).0 == t.ox_runs@[j].0 + t.ox_runs@[j].1);
    }
    assert forall|i: int, j: int| 0 <= i < j < 118 implies (#[trigger] runs[i]).0 + runs[i].1 <= (
    #[trigger] runs[j]).0 by {
        lemma_run_end_le_start(runs, i, j);
    }
    lemma_sum_prefix(runs, 118);
    assert(runs.take(118) =~= runs);
    assert(runs[117].0 + runs[117].1 == t.spec_ox_flat().len()) by {
        assert(t.ox_runs@[117].0 + t.ox_runs@[117].1 == t.ox_flat@.len());
    }
}

/// Two identifiers never share a symbol in a well-formed table; with the
/// contract of `Element::from_symbol`, whose no-match case excludes every
/// identifier whose symbol equals the query, looking a compiled element up
/// by its own symbol therefore returns exactly that element.
pub proof fn lemma_symbols_injective(t: PeriodicTable, i: int, j: int)
    requires
        t.wf(),
        0 <= i < 118,
        0 <= j < 118,
        t@.symbols[i] == t@.symbols[j],
    ensures
        i == j,
{
    if i != j {
        assert(has_entry(t.sym_index@, i));
        assert(has_entry(t.sym_index@, j));
        let pi = choose|p: int| 0 <= p < t.sym_index@.len() && (#[trigger] t.sym_index@[p]).1 == i;
        let pj = choose|p: int| 0 <= p < t.sym_index@.len() && (#[trigger] t.sym_index@[p]).1 == j;
        assert(t.sym_index@[pi].0@ == t@.symbols[i]);
        assert(t.sym_index@[pj].0@ == t@.symbols[j]);
        assert(pi != pj);
        if pi < pj {
            assert(lex_lt(t.sym_index@[pi].0@, t.sym_index@[pj].0@));
            lemma_lex_asym(t.sym_index@[pi].0@, t.sym_index@[pj].0@);
        } else {
            assert(lex_lt(t.sym_index@[pj].0@, t.sym_index@[pi].0@));
            lemma_lex_asym(t.sym_index@[pj].0@, t.sym_index@[pi].0@);
        }
    }
}

/// Two identifiers never share a lowercased name in a well-formed table;
/// with the contract of `Element::from_name_case_insensitive`, looking a
/// compiled element up by its own name in any letter-casing that lowercases
/// alike therefore returns exactly that element.
pub proof fn lemma_lower_names_injective(t: PeriodicTable, i: int, j: int)
    requires
        t.wf(),
        0 <= i < 118,
        0 <= j < 118,
        lower(t@.names[i]) == lower(t@.names[j]),
    ensures
        i == j,
{
    if i != j {
        assert(has_entry(t.name_index@, i));
        assert(has_entry(t.name_index@, j));
        let pi = choose|p: int| 0 <= p < t.name_index@.len() && (#[trigger] t.name_index@[p]).1
            == i;
        let pj = choose|p: int| 0 <= p < t.name_index@.len() && (#[trigger] t.name_index@[p]).1
            == j;
        assert(t.name_index@[pi].0@ == crate::table::lower_all(t.names.deep_view())[i]);
        assert(t.name_index@[pj].0@ == crate::table::lower_all(t.names.deep_view())[j]);
        assert(pi != pj);
        if pi < pj {
            assert(lex_lt(t.name_index@[pi].0@, t.name_index@[pj].0@));
            lemma_lex_asym(t.name_index@[pi].0@, t.name_index@[pj].0@);
        } else {
            assert(lex_lt(t.name_index@[pj].0@, t.name_index@[pi].0@));
            lemma_lex_asym(t.name_index@[pj].0@, t.name_index@[pi].0@);
        }
    }
}


/// Looking a compiled element up by its own symbol returns that element: any
/// result that meets the contract of `Element::from_symbol` when the query
/// is the symbol of identifier `id` is exactly `id`.
pub proof fn lemma_own_symbol_lookup(t: PeriodicTable, id: int, r: Option<Element>)
    requires
        t.wf(),
        0 <= id < 118,
        match r {
            Some(e) => e.wf() && t@.symbols[e.spec_id()] == t@.symbols[id],
            None => forall|id2: int| 0 <= id2 < 118 ==> t@.symbols[id2] != t@.symbols[id],
        },
    ensures
        r is Some,
        r.unwrap().spec_id() == id,
{
    match r {
        Some(e) => {
            lemma_symbols_injective(t, e.spec_id(), id);
        },
        None => {
            assert(t@.symbols[id] == t@.symbols[id]);
        },
    }
}

/// Looking a compiled element up by its own name, in any letter-casing that
/// lowercases to the element's lowercased name, returns that element: any
/// result that meets the contract of `Element::from_name_case_insensitive`
/// for such a query `q` is exactly `id`.
pub proof fn lemma_own_name_lookup(t: PeriodicTable, id: int, q: Seq<char>, r: Option<Element>)
    requires
        t.wf(),
        0 <= id < 118,
        lower(q) == lower(t@.names[id]),
        match r {
            Some(e) => e.wf() && lower(t@.names[e.spec_id()]) == lower(q),
            None => forall|id2: int| 0 <= id2 < 118 ==> lower(t@.names[id2]) != lower(q),
        },
    ensures
        r is Some,
        r.unwrap().spec_id() == id,
{
    match r {
        Some(e) => {
            lemma_lower_names_injective(t, e.spec_id(), id);
        },
        None => {
            assert(lower(t@.names[id]) == lower(q));
        },
    }
}

} // verus!
