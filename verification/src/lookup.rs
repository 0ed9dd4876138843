//! The runtime lookup facade: read-only binary search by symbol or name
//! over the compiled index tables, and direct indexed access to every
//! per-element field. Unknown keys are ordinary no-match results, never
//! failures; no partial or fuzzy match is ever returned.
use vstd::prelude::*;

use crate::config::ElectronicConfiguration;
use crate::element::Element;
use crate::fields::{GroupBlock, StateOfMatter};
use crate::index::{has_entry, strictly_ascending};
use crate::table::{lower_all, PeriodicTable};
use crate::text::{
    chars_eq, chars_lt, lemma_lex_asym, lemma_lex_total, lemma_lex_trans, lex_lt, lower,
    str_to_chars, str_to_lower_chars,
};

verus! {

/// Binary search over a strictly ascending index table: the identifier
/// paired with the exact key, or nothing.
#[verifier::loop_isolation(false)]
fn index_search(index: &Vec<(Vec<char>, u8)>, key: &Vec<char>) -> (r: Option<u8>)
    requires
        strictly_ascending(index@),
    ensures
        match r {
            Some(id) => exists|j: int|
                0 <= j < index@.len() && (#[trigger] index@[j]).0@ == key@ && index@[j].1 == id,
            None => forall|j: int| 0 <= j < index@.len() ==> (#[trigger] index@[j]).0@ != key@,
        },
{
    let mut lo: usize = 0;
    let mut hi: usize = index.len();
    while lo < hi
        invariant
            lo <= hi <= index@.len(),
            forall|j: int| 0 <= j < lo ==> lex_lt((#[trigger] index@[j]).0@, key@),
            forall|j: int| hi <= j < index@.len() ==> lex_lt(key@, (#[trigger] index@[j]).0@),
        decreases hi - lo,
    {
        let mid = lo + (hi - lo) / 2;
        if chars_lt(&index[mid].0, key) {
            proof {
                assert forall|j: int| 0 <= j < mid + 1 implies lex_lt(
                    (#[trigger] index@[j]).0@,
                    key@,
                ) by {
                    if j < mid {
                        lemma_lex_trans(index@[j].0@, index@[mid as int].0@, key@);
                    }
                }
            }
            lo = mid + 1;
        } else if chars_eq(&index[mid].0, key) {
            return Some(index[mid].1);
        } else {
            proof {
                lemma_lex_total(index@[mid as int].0@, key@);
                assert(lex_lt(key@, index@[mid as int].0@));
                assert forall|j: int| mid <= j < index@.len() implies lex_lt(
                    key@,
                    (#[trigger] index@[j]).0@,
                ) by {
                    if j > mid {
                        lemma_lex_trans(key@, index@[mid as int].0@, index@[j].0@);
                    }
                }
            }
            hi = mid;
        }
    }
    proof {
        assert forall|j: int| 0 <= j < index@.len() implies (#[trigger] index@[j]).0@ != key@ by {
            if j < lo {
                lemma_lex_asym(index@[j].0@, key@);
            } else {
                lemma_lex_asym(key@, index@[j].0@);
            }
        }
    }
    None
}

impl Element {
    /// Exact, case-sensitive lookup by symbol: binary search over the symbol
    /// index table. Some element exactly when the symbol is in the table.
    pub fn from_symbol(table: &PeriodicTable, sym: &str) -> (r: Option<Element>)
        requires
            table.wf(),
        ensures
            match r {
                Some(e) => e.wf() && table@.symbols[e.spec_id()] == sym@,
                None => forall|id: int| 0 <= id < 118 ==> table@.symbols[id] != sym@,
            },
    {
        let key = str_to_chars(sym);
        match index_search(&table.sym_index, &key) {
            Some(id) => {
                proof {
                    let j = choose|j: int|
                        0 <= j < table.sym_index@.len() && (#[trigger] table.sym_index@[j]).0@
                            == key@ && table.sym_index@[j].1 == id;
                    assert(table.symbols.deep_view()[id as int] == key@);
                }
                Element::from_id(id)
            }
            None => {
                proof {
                    assert forall|id: int| 0 <= id < 118 implies table@.symbols[id] != sym@ by {
                        assert(has_entry(table.sym_index@, id));
                        let j = choose|j: int|
                            0 <= j < table.sym_index@.len() && (#[trigger] table.sym_index@[j]).1
                                == id;
                        assert(table.sym_index@[j].0@ == table.symbols.deep_view()[id]);
                        assert(table.sym_index@[j].0@ != key@);
                    }
                }
                None
            }
        }
    }

    /// Exact lookup by lowercase name: binary search over the lowercase-name
    /// index table. The query must already be lowercase to match.
    pub fn from_name(table: &PeriodicTable, name: &str) -> (r: Option<Element>)
        requires
            table.wf(),
        ensures
            match r {
                Some(e) => e.wf() && lower(table@.names[e.spec_id()]) == name@,
                None => forall|id: int| 0 <= id < 118 ==> lower(table@.names[id]) != name@,
            },
    {
        let key = str_to_chars(name);
        Element::name_index_lookup(table, key)
    }

    /// Case-insensitive lookup by name: the query is lowercased first, then
    /// looked up like `from_name`.
    pub fn from_name_case_insensitive(table: &PeriodicTable, name: &str) -> (r: Option<Element>)
        requires
            table.wf(),
        ensures
            match r {
                Some(e) => e.wf() && lower(table@.names[e.spec_id()]) == lower(name@),
                None => forall|id: int| 0 <= id < 118 ==> lower(table@.names[id]) != lower(name@),
            },
    {
        let key = str_to_lower_chars(name);
        Element::name_index_lookup(table, key)
    }

    fn name_index_lookup(table: &PeriodicTable, key: Vec<char>) -> (r: Option<Element>)
        requires
            table.wf(),
        ensures
            match r {
                Some(e) => e.wf() && lower(table@.names[e.spec_id()]) == key@,
                None => forall|id: int| 0 <= id < 118 ==> lower(table@.names[id]) != key@,
            },
    {
        match index_search(&table.name_index, &key) {
            Some(id) => {
                proof {
                    let j = choose|j: int|
                        0 <= j < table.name_index@.len() && (#[trigger] table.name_index@[j]).0@
                            == key@ && table.name_index@[j].1 == id;
                    assert(lower_all(table.names.deep_view())[id as int] == key@);
                }
                Element::from_id(id)
            }
            None => {
                proof {
                    assert forall|id: int| 0 <= id < 118 implies lower(table@.names[id])
                        != key@ by {
                        assert(has_entry(table.name_index@, id));
                        let j = choose|j: int|
                            0 <= j < table.name_index@.len() && (#[trigger] table.name_index@[j]).1
                                == id;
                        assert(table.name_index@[j].0@ == lower_all(table.names.deep_view())[id]);
                        assert(table.name_index@[j].0@ != key@);
                    }
                }
                None
            }
        }
    }

    pub fn get_symbol(&self, table: &PeriodicTable) -> (r: String)
        requires
            table.wf(),
            self.wf(),
        ensures
            r@ == table@.symbols[self.spec_id()],
    {
        table.symbols[self.get_id() as usize].clone()
    }

    pub fn get_name(&self, table: &PeriodicTable) -> (r: String)
        requires
            table.wf(),
            self.wf(),
        ensures
            r@ == table@.names[self.spec_id()],
    {
        table.names[self.get_id() as usize].clone()
    }

    /// The canonical decimal text of the atomic mass, always carrying a
    /// decimal point.
    pub fn get_atomic_mass_str(&self, table: &PeriodicTable) -> (r: String)
        requires
            table.wf(),
            self.wf(),
        ensures
            r@ == table@.atomic_masses[self.spec_id()],
    {
        table.atomic_masses[self.get_id() as usize].clone()
    }

    /// The canonical decimal text of the electronegativity.
    pub fn get_electronegativity_str(&self, table: &PeriodicTable) -> (r: String)
        requires
            table.wf(),
            self.wf(),
        ensures
            r@ == table@.electronegativities[self.spec_id()],
    {
        table.electronegativities[self.get_id() as usize].clone()
    }

    pub fn get_atomic_radius(&self, table: &PeriodicTable) -> (r: u16)
        requires
            table.wf(),
            self.wf(),
        ensures
            r as int == table@.atomic_radii[self.spec_id()],
    {
        table.atomic_radii[self.get_id() as usize]
    }

    /// The canonical decimal text of the first ionization energy.
    pub fn get_ionization_energy_str(&self, table: &PeriodicTable) -> (r: String)
        requires
            table.wf(),
            self.wf(),
        ensures
            r@ == table@.ionization_energies[self.spec_id()],
    {
        table.ionization_energies[self.get_id() as usize].clone()
    }

    /// The canonical decimal text of the electron affinity.
    pub fn get_electron_affinity_str(&self, table: &PeriodicTable) -> (r: String)
        requires
            table.wf(),
            self.wf(),
        ensures
            r@ == table@.electron_affinities[self.spec_id()],
    {
        table.electron_affinities[self.get_id() as usize].clone()
    }

    /// The canonical decimal text of the density.
    pub fn get_density_str(&self, table: &PeriodicTable) -> (r: String)
        requires
            table.wf(),
            self.wf(),
        ensures
            r@ == table@.densities[self.spec_id()],
    {
        table.densities[self.get_id() as usize].clone()
    }

    /// The canonical decimal text of the melting point.
    pub fn get_melting_point_str(&self, table: &PeriodicTable) -> (r: String)
        requires
            table.wf(),
            self.wf(),
        ensures
            r@ == table@.melting_points[self.spec_id()],
    {
        table.melting_points[self.get_id() as usize].clone()
    }

    /// The canonical decimal text of the boiling point.
    pub fn get_boiling_point_str(&self, table: &PeriodicTable) -> (r: String)
        requires
            table.wf(),
            self.wf(),
        ensures
            r@ == table@.boiling_points[self.spec_id()],
    {
        table.boiling_points[self.get_id() as usize].clone()
    }

    /// The raw electron-configuration shorthand text.
    pub fn get_electron_configuration(&self, table: &PeriodicTable) -> (r: String)
        requires
            table.wf(),
            self.wf(),
        ensures
            r@ == table@.config_texts[self.spec_id()],
    {
        table.config_texts[self.get_id() as usize].clone()
    }

    /// The raw electron-configuration shorthand text.
    pub fn get_electronic_configuration_str(&self, table: &PeriodicTable) -> (r: String)
        requires
            table.wf(),
            self.wf(),
        ensures
            r@ == table@.config_texts[self.spec_id()],
    {
        table.config_texts[self.get_id() as usize].clone()
    }

    /// The resolved per-subshell occupancy counts.
    pub fn get_electronic_configuration(&self, table: &PeriodicTable) -> (r:
        ElectronicConfiguration)
        requires
            table.wf(),
            self.wf(),
        ensures
            r@ == table@.configs[self.spec_id()],
    {
        table.configs[self.get_id() as usize]
    }

    pub fn get_standard_state(&self, table: &PeriodicTable) -> (r: StateOfMatter)
        requires
            table.wf(),
            self.wf(),
        ensures
            r == table@.states[self.spec_id()],
    {
        table.states[self.get_id() as usize]
    }

    pub fn get_group(&self, table: &PeriodicTable) -> (r: GroupBlock)
        requires
            table.wf(),
            self.wf(),
        ensures
            r == table@.groups[self.spec_id()],
    {
        table.groups[self.get_id() as usize]
    }

    /// The decoded CPK color triplet: red, green, blue.
    pub fn get_cpk(&self, table: &PeriodicTable) -> (r: [u8; 3])
        requires
            table.wf(),
            self.wf(),
        ensures
            r@ == table@.cpk[self.spec_id()],
    {
        table.cpk[self.get_id() as usize]
    }

    /// The year of discovery; zero means no specific numeric year.
    pub fn get_year_discovered(&self, table: &PeriodicTable) -> (r: u16)
        requires
            table.wf(),
            self.wf(),
        ensures
            r as int == table@.years[self.spec_id()],
    {
        table.years[self.get_id() as usize]
    }

    /// The element's oxidation states: the slice of the shared flat array
    /// that this element's (offset, count) run describes.
    #[verifier::loop_isolation(false)]
    pub fn get_oxidation_states(&self, table: &PeriodicTable) -> (r: Vec<i8>)
        requires
            table.wf(),
            self.wf(),
        ensures
            r@ == table@.ox[self.spec_id()],
    {
        let id = self.get_id() as usize;
        let (start, count) = table.ox_runs[id];
        proof {
            assert(start == table.ox_runs@[id as int].0);
            assert(count == table.ox_runs@[id as int].1);
            assert((#[trigger] table.ox_runs@[id as int]).0 + table.ox_runs@[id as int].1
                <= table.ox_flat@.len());
        }
        let flat_len = table.ox_flat.len();
        let mut r: Vec<i8> = Vec::new();
        let mut k: usize = 0;
        while k < count
            invariant
                k <= count,
                flat_len == table.ox_flat@.len(),
                start + count <= flat_len,
                (start as int, count as int) == table.spec_ox_runs()[id as int],
                r@ == table.ox_flat@.subrange(start as int, start + k),
            decreases count - k,
        {
            r.push(table.ox_flat[start + k]);
            proof {
                assert(r@ =~= table.ox_flat@.subrange(start as int, start + k + 1));
            }
            k = k + 1;
        }
        proof {
            assert(r@ == table@.ox[self.spec_id()]);
        }
        r
    }
}

} // verus!
