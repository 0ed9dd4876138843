//! The table compiler: consumes the full normalized record set, places each
//! record at its dense identifier (atomic number minus one), resolves every
//! electron configuration, types every field, and builds the two sorted
//! index tables and the flat run-length-encoded oxidation-state array. Any
//! violation of the dataset's guarantees is a fatal error; a compiled table
//! is immutable and well-formed by construction.
use vstd::prelude::*;

use crate::config::{
    rec_views, resolve_configurations, spec_resolved_seq, ConfigModel, ElectronicConfiguration,
};
use crate::error::CompileError;
use crate::fields::{
    canonical_decimal, canonicalize_decimal, decode_cpk, parse_group, parse_radius, parse_state,
    parse_year, spec_cpk, spec_group, spec_radius, spec_state, spec_year, GroupBlock,
    StateOfMatter,
};
use crate::index::{
    build_sorted_index, entries_complete, entries_match, strictly_ascending,
};
use crate::record::{normalize_row, spec_norm_row, Record, RecModel};
use crate::text::{lower, str_to_chars, str_to_lower_chars};

verus! {

// ---------------------------------------------------------------------------
// The compiled tables and their mathematical model
// ---------------------------------------------------------------------------
/// The mathematical content of a compiled table: one entry per element, in
/// ascending atomic-number order, dense identifier = position.
#[verifier::ext_equal]
pub struct TableModel {
    pub symbols: Seq<Seq<char>>,
    pub names: Seq<Seq<char>>,
    pub atomic_masses: Seq<Seq<char>>,
    pub electronegativities: Seq<Seq<char>>,
    pub atomic_radii: Seq<int>,
    pub ionization_energies: Seq<Seq<char>>,
    pub electron_affinities: Seq<Seq<char>>,
    pub densities: Seq<Seq<char>>,
    pub melting_points: Seq<Seq<char>>,
    pub boiling_points: Seq<Seq<char>>,
    pub config_texts: Seq<Seq<char>>,
    pub configs: Seq<ConfigModel>,
    pub cpk: Seq<Seq<u8>>,
    pub states: Seq<StateOfMatter>,
    pub groups: Seq<GroupBlock>,
    pub years: Seq<int>,
    pub ox: Seq<Seq<i8>>,
}

/// The compiled lookup tables for the 118 elements: per-element arrays
/// indexed by identifier, two sorted index tables, and the shared flat
/// oxidation-state array with one (offset, count) run per element. Produced
/// once by `compile` and never mutated afterward.
pub struct PeriodicTable {
    pub(crate) symbols: Vec<String>,
    pub(crate) names: Vec<String>,
    pub(crate) atomic_masses: Vec<String>,
    pub(crate) electronegativities: Vec<String>,
    pub(crate) atomic_radii: Vec<u16>,
    pub(crate) ionization_energies: Vec<String>,
    pub(crate) electron_affinities: Vec<String>,
    pub(crate) densities: Vec<String>,
    pub(crate) melting_points: Vec<String>,
    pub(crate) boiling_points: Vec<String>,
    pub(crate) config_texts: Vec<String>,
    pub(crate) configs: Vec<ElectronicConfiguration>,
    pub(crate) cpk: Vec<[u8; 3]>,
    pub(crate) states: Vec<StateOfMatter>,
    pub(crate) groups: Vec<GroupBlock>,
    pub(crate) years: Vec<u16>,
    pub(crate) ox_flat: Vec<i8>,
    pub(crate) ox_runs: Vec<(usize, usize)>,
    pub(crate) sym_index: Vec<(Vec<char>, u8)>,
    pub(crate) name_index: Vec<(Vec<char>, u8)>,
}

/// Lowercasing, element by element.
pub open spec fn lower_all(keys: Seq<Seq<char>>) -> Seq<Seq<char>> {
    Seq::new(keys.len(), |i: int| lower(keys[i]))
}

impl View for PeriodicTable {
    type V = TableModel;

    open(crate) spec fn view(&self) -> TableModel {
        TableModel {
            symbols: self.symbols.deep_view(),
            names: self.names.deep_view(),
            atomic_masses: self.atomic_masses.deep_view(),
            electronegativities: self.electronegativities.deep_view(),
            atomic_radii: Seq::new(self.atomic_radii@.len(), |i: int| self.atomic_radii@[i] as int),
            ionization_energies: self.ionization_energies.deep_view(),
            electron_affinities: self.electron_affinities.deep_view(),
            densities: self.densities.deep_view(),
            melting_points: self.melting_points.deep_view(),
            boiling_points: self.boiling_points.deep_view(),
            config_texts: self.config_texts.deep_view(),
            configs: self.configs.deep_view(),
            cpk: Seq::new(self.cpk@.len(), |i: int| self.cpk@[i]@),
            states: self.states@,
            groups: self.groups@,
            years: Seq::new(self.years@.len(), |i: int| self.years@[i] as int),
            ox: Seq::new(
                self.ox_runs@.len(),
                |i: int|
                    self.ox_flat@.subrange(
                        self.ox_runs@[i].0 as int,
                        self.ox_runs@[i].0 + self.ox_runs@[i].1,
                    ),
            ),
        }
    }
}

impl PeriodicTable {
    /// The symbol index table: (key, identifier) pairs, strictly ascending
    /// by key.
    pub open(crate) spec fn spec_sym_index(self) -> Seq<(Seq<char>, int)> {
        Seq::new(
            self.sym_index@.len(),
            |j: int| (self.sym_index@[j].0@, self.sym_index@[j].1 as int),
        )
    }

    /// The lowercase-name index table: (key, identifier) pairs, strictly
    /// ascending by key.
    pub open(crate) spec fn spec_name_index(self) -> Seq<(Seq<char>, int)> {
        Seq::new(
            self.name_index@.len(),
            |j: int| (self.name_index@[j].0@, self.name_index@[j].1 as int),
        )
    }

    /// The per-element (offset, count) runs into the flat oxidation array.
    pub open(crate) spec fn spec_ox_runs(self) -> Seq<(int, int)> {
        Seq::new(
            self.ox_runs@.len(),
            |j: int| (self.ox_runs@[j].0 as int, self.ox_runs@[j].1 as int),
        )
    }

    /// The shared flat oxidation-state array.
    pub open(crate) spec fn spec_ox_flat(self) -> Seq<i8> {
        self.ox_flat@
    }

    /// Structural well-formedness: everything the lookup facade relies on.
    pub open(crate) spec fn wf(self) -> bool {
        &&& self.symbols@.len() == 118
        &&& self.names@.len() == 118
        &&& self.atomic_masses@.len() == 118
        &&& self.electronegativities@.len() == 118
        &&& self.atomic_radii@.len() == 118
        &&& self.ionization_energies@.len() == 118
        &&& self.electron_affinities@.len() == 118
        &&& self.densities@.len() == 118
        &&& self.melting_points@.len() == 118
        &&& self.boiling_points@.len() == 118
        &&& self.config_texts@.len() == 118
        &&& self.configs@.len() == 118
        &&& self.cpk@.len() == 118
        &&& self.states@.len() == 118
        &&& self.groups@.len() == 118
        &&& self.years@.len() == 118
        &&& self.ox_runs@.len() == 118
        &&& self.ox_runs@[0].0 == 0
        &&& forall|j: int|
            0 <= j < 117 ==> (#[trigger] self.ox_runs@[j + 1]).0 == self.ox_runs@[j].0
                + self.ox_runs@[j].1
        &&& self.ox_runs@[117].0 + self.ox_runs@[117].1 == self.ox_flat@.len()
        &&& forall|j: int|
            0 <= j < 118 ==> (#[trigger] self.ox_runs@[j]).0 + self.ox_runs@[j].1
                <= self.ox_flat@.len()
        &&& self.sym_index@.len() == 118
        &&& strictly_ascending(self.sym_index@)
        &&& entries_match(self.sym_index@, self.symbols.deep_view())
        &&& entries_complete(self.sym_index@, 118)
        &&& self.name_index@.len() == 118
        &&& strictly_ascending(self.name_index@)
        &&& entries_match(self.name_index@, lower_all(self.names.deep_view()))
        &&& entries_complete(self.name_index@, 118)
    }
}

// ---------------------------------------------------------------------------
// The compilation pipeline, stage by stage, as a specification
// ---------------------------------------------------------------------------
/// Normalization of every row, in order; the first failing row aborts.
pub open spec fn spec_norm_rows(cols: Seq<Seq<char>>, rows: Seq<Seq<Seq<char>>>) -> Result<
    Seq<RecModel>,
    CompileError,
>
    decreases rows.len(),
{
    if rows.len() == 0 {
        Ok(seq![])
    } else {
        match spec_norm_rows(cols, rows.drop_last()) {
            Err(e) => Err(e),
            Ok(rs) => match spec_norm_row(cols, rows.last()) {
                Err(e) => Err(e),
                Ok(m) => Ok(rs.push(m)),
            },
        }
    }
}

/// Placement of each record at slot (atomic number - 1) of a 118-slot
/// array: the dataset must be complete, with no gaps and no duplicates.
pub open spec fn spec_place(recs: Seq<RecModel>) -> Result<Seq<Option<RecModel>>, CompileError>
    decreases recs.len(),
{
    if recs.len() == 0 {
        Ok(Seq::new(118, |i: int| None))
    } else {
        match spec_place(recs.drop_last()) {
            Err(e) => Err(e),
            Ok(placed) => {
                let z = recs.last().atomic_number;
                if z < 1 || z > 118 {
                    Err(CompileError::AtomicNumberOutOfRange)
                } else if placed[z - 1] is Some {
                    Err(CompileError::DuplicateAtomicNumber)
                } else {
                    Ok(placed.update(z - 1, Some(recs.last())))
                }
            },
        }
    }
}

/// The canonical ascending record order: record `i` carries atomic number
/// `i + 1`, or compilation fails.
pub open spec fn spec_arrange(recs: Seq<RecModel>) -> Result<Seq<RecModel>, CompileError> {
    match spec_place(recs) {
        Err(e) => Err(e),
        Ok(placed) => {
            if forall|i: int| 0 <= i < 118 ==> (#[trigger] placed[i]) is Some {
                Ok(Seq::new(118, |i: int| placed[i].unwrap()))
            } else {
                Err(CompileError::MissingAtomicNumber)
            }
        },
    }
}

/// The normalized record set in canonical order, or the first fatal error.
pub open spec fn spec_sorted_records(cols: Seq<Seq<char>>, rows: Seq<Seq<Seq<char>>>) -> Result<
    Seq<RecModel>,
    CompileError,
> {
    match spec_norm_rows(cols, rows) {
        Err(e) => Err(e),
        Ok(ms) => spec_arrange(ms),
    }
}

/// What the configuration resolver reads of each record model.
pub open spec fn model_views(recs: Seq<RecModel>) -> Seq<(Seq<char>, Seq<char>)> {
    Seq::new(recs.len(), |i: int| (recs[i].symbol, recs[i].electron_configuration))
}

/// The first fatal field of one record, in field order: radius, year,
/// standard state, group block.
pub open spec fn spec_element_error(recs: Seq<RecModel>, i: int) -> Option<CompileError> {
    let r = recs[i];
    if spec_radius(r.atomic_radius) is None {
        Some(CompileError::AtomicRadiusUnparsable)
    } else if spec_year(r.year_discovered) is None {
        Some(CompileError::YearUnparsable)
    } else if spec_state(r.standard_state) is None {
        Some(CompileError::UnknownStandardState)
    } else if spec_group(r.group_block) is None {
        Some(CompileError::UnknownGroupBlock)
    } else {
        None
    }
}

/// The first fatal field over the first `n` records.
pub open spec fn spec_first_element_error(recs: Seq<RecModel>, n: int) -> Option<CompileError>
    decreases n,
{
    if n <= 0 {
        None
    } else {
        match spec_first_element_error(recs, n - 1) {
            Some(e) => Some(e),
            None => spec_element_error(recs, n - 1),
        }
    }
}

/// Two records sharing a symbol: no strict symbol index can exist.
pub open spec fn dup_symbols(recs: Seq<RecModel>) -> bool {
    exists|i: int, j: int|
        0 <= i < j < recs.len() && (#[trigger] recs[i]).symbol == (#[trigger] recs[j]).symbol
}

/// Two records sharing a lowercased name.
pub open spec fn dup_lower_names(recs: Seq<RecModel>) -> bool {
    exists|i: int, j: int|
        0 <= i < j < recs.len() && lower((#[trigger] recs[i]).name) == lower(
            (#[trigger] recs[j]).name,
        )
}

/// The table a well-formed record set compiles to.
pub open spec fn spec_model_of(recs: Seq<RecModel>, cfgs: Seq<ConfigModel>) -> TableModel {
    TableModel {
        symbols: Seq::new(recs.len(), |i: int| recs[i].symbol),
        names: Seq::new(recs.len(), |i: int| recs[i].name),
        atomic_masses: Seq::new(recs.len(), |i: int| canonical_decimal(recs[i].atomic_mass)),
        electronegativities: Seq::new(
            recs.len(),
            |i: int| canonical_decimal(recs[i].electronegativity),
        ),
        atomic_radii: Seq::new(recs.len(), |i: int| spec_radius(recs[i].atomic_radius).unwrap()),
        ionization_energies: Seq::new(
            recs.len(),
            |i: int| canonical_decimal(recs[i].ionization_energy),
        ),
        electron_affinities: Seq::new(
            recs.len(),
            |i: int| canonical_decimal(recs[i].electron_affinity),
        ),
        densities: Seq::new(recs.len(), |i: int| canonical_decimal(recs[i].density)),
        melting_points: Seq::new(recs.len(), |i: int| canonical_decimal(recs[i].melting_point)),
        boiling_points: Seq::new(recs.len(), |i: int| canonical_decimal(recs[i].boiling_point)),
        config_texts: Seq::new(recs.len(), |i: int| recs[i].electron_configuration),
        configs: cfgs,
        cpk: Seq::new(recs.len(), |i: int| spec_cpk(recs[i].cpk)),
        states: Seq::new(recs.len(), |i: int| spec_state(recs[i].standard_state).unwrap()),
        groups: Seq::new(recs.len(), |i: int| spec_group(recs[i].group_block).unwrap()),
        years: Seq::new(recs.len(), |i: int| spec_year(recs[i].year_discovered).unwrap()),
        ox: Seq::new(recs.len(), |i: int| recs[i].oxidation_states),
    }
}

/// The meaning of compilation: the table model a document compiles to, or
/// the first fatal error, stage by stage.
pub open spec fn spec_compile(cols: Seq<Seq<char>>, rows: Seq<Seq<Seq<char>>>) -> Result<
    TableModel,
    CompileError,
> {
    match spec_sorted_records(cols, rows) {
        Err(e) => Err(e),
        Ok(recs) => match spec_resolved_seq(model_views(recs), recs.len() as int) {
            Err(e) => Err(e),
            Ok(cfgs) => match spec_first_element_error(recs, recs.len() as int) {
                Some(e) => Err(e),
                None => {
                    if dup_symbols(recs) {
                        Err(CompileError::DuplicateSymbol)
                    } else if dup_lower_names(recs) {
                        Err(CompileError::DuplicateName)
                    } else {
                        Ok(spec_model_of(recs, cfgs))
                    }
                },
            },
        },
    }
}

// ---------------------------------------------------------------------------
// Persistence of stage errors over longer prefixes
// ---------------------------------------------------------------------------
proof fn lemma_norm_rows_err(cols: Seq<Seq<char>>, rows: Seq<Seq<Seq<char>>>, k: int)
    requires
        0 <= k <= rows.len(),
        spec_norm_rows(cols, rows.take(k)) is Err,
    ensures
        spec_norm_rows(cols, rows) == spec_norm_rows(cols, rows.take(k)),
    decreases rows.len() - k,
{
    if k < rows.len() {
        assert(rows.take(k + 1).drop_last() =~= rows.take(k));
        lemma_norm_rows_err(cols, rows, k + 1);
    } else {
        assert(rows.take(k) =~= rows);
    }
}

proof fn lemma_place_err(recs: Seq<RecModel>, k: int)
    requires
        0 <= k <= recs.len(),
        spec_place(recs.take(k)) is Err,
    ensures
        spec_place(recs) == spec_place(recs.take(k)),
    decreases recs.len() - k,
{
    if k < recs.len() {
        assert(recs.take(k + 1).drop_last() =~= recs.take(k));
        lemma_place_err(recs, k + 1);
    } else {
        assert(recs.take(k) =~= recs);
    }
}

proof fn lemma_first_element_error_found(recs: Seq<RecModel>, k: int, n: int)
    requires
        0 <= k <= n,
        spec_first_element_error(recs, k) is Some,
    ensures
        spec_first_element_error(recs, n) == spec_first_element_error(recs, k),
    decreases n - k,
{
    if k < n {
        lemma_first_element_error_found(recs, k + 1, n);
    }
}

// ---------------------------------------------------------------------------
// Executable compilation, stage by stage
// ---------------------------------------------------------------------------
/// Normalizes every row, in order.
#[verifier::loop_isolation(false)]
fn normalize_all(columns: &Vec<String>, rows: &Vec<Vec<String>>) -> (r: Result<
    Vec<Record>,
    CompileError,
>)
    ensures
        match r {
            Ok(recs) => spec_norm_rows(columns.deep_view(), rows.deep_view()) == Ok::<
                Seq<RecModel>,
                CompileError,
            >(recs.deep_view()),
            Err(e) => spec_norm_rows(columns.deep_view(), rows.deep_view()) == Err::<
                Seq<RecModel>,
                CompileError,
            >(e),
        },
{
    let ghost cols = columns.deep_view();
    let ghost rowsv = rows.deep_view();
    let n = rows.len();
    let mut recs: Vec<Record> = Vec::new();
    let mut r: usize = 0;
    proof {
        assert(rowsv.take(0) =~= Seq::<Seq<Seq<char>>>::empty());
        assert(recs.deep_view() =~= Seq::<RecModel>::empty());
    }
    while r < n
        invariant
            r <= n,
            recs@.len() == r,
            spec_norm_rows(cols, rowsv.take(r as int)) == Ok::<Seq<RecModel>, CompileError>(
                recs.deep_view(),
            ),
        decreases n - r,
    {
        let ghost pre = recs.deep_view();
        proof {
            assert(rowsv.take(r + 1).drop_last() =~= rowsv.take(r as int));
            assert(rowsv.take(r + 1).last() == rowsv[r as int]);
            assert(rowsv[r as int] == rows@[r as int].deep_view());
        }
        match normalize_row(columns, &rows[r]) {
            Ok(rec) => {
                recs.push(rec);
                proof {
                    assert(recs.deep_view() =~= pre.push(rec@));
                }
            }
            Err(e) => {
                proof {
                    lemma_norm_rows_err(cols, rowsv, r + 1);
                }
                return Err(e);
            }
        }
        r = r + 1;
    }
    proof {
        assert(rowsv.take(n as int) =~= rowsv);
    }
    Ok(recs)
}

/// Places each record at its dense identifier and checks that the 118 slots
/// are exactly filled.
#[verifier::loop_isolation(false)]
fn place_records(recs: Vec<Record>) -> (r: Result<Vec<Record>, CompileError>)
    ensures
        match r {
            Ok(sorted) => spec_arrange(recs.deep_view()) == Ok::<Seq<RecModel>, CompileError>(
                sorted.deep_view(),
            ) && sorted@.len() == 118,
            Err(e) => spec_arrange(recs.deep_view()) == Err::<Seq<RecModel>, CompileError>(e),
        },
{
    let ghost ms = recs.deep_view();
    let n = recs.len();
    let mut placed: Vec<Option<Record>> = Vec::new();
    let mut recs = recs;
    let mut i: usize = 0;
    while i < 118
        invariant
            placed@.len() == i,
            i <= 118,
            forall|j: int| 0 <= j < i ==> (#[trigger] placed.deep_view()[j]) is None,
        decreases 118 - i,
    {
        let ghost pd = placed.deep_view();
        placed.push(None);
        proof {
            assert forall|j: int| 0 <= j < i + 1 implies (#[trigger] placed.deep_view()[j])
                is None by {
                if j < i {
                    assert(placed.deep_view()[j] == pd[j]);
                } else {
                    assert(placed@[j] == Option::<Record>::None);
                }
            }
        }
        i = i + 1;
    }
    proof {
        assert(placed.deep_view() =~= Seq::<Option<RecModel>>::new(118, |i: int| None));
        assert(ms.take(0) =~= Seq::<RecModel>::empty());
    }
    let mut k: usize = 0;
    while k < n
        invariant
            k <= n,
            n == ms.len(),
            recs@.len() == n - k,
            recs.deep_view() =~= ms.skip(k as int),
            placed@.len() == 118,
            spec_place(ms.take(k as int)) == Ok::<Seq<Option<RecModel>>, CompileError>(
                placed.deep_view(),
            ),
        decreases n - k,
    {
        proof {
            assert(ms.take(k + 1).drop_last() =~= ms.take(k as int));
            assert(ms.take(k + 1).last() == ms[k as int]);
            assert(recs.deep_view()[0] == ms[k as int]);
        }
        let ghost placed_pre = placed.deep_view();
        let ghost recs_pre = recs@;
        let rec = recs.remove(0);
        proof {
            assert(rec@ == ms[k as int]);
            recs_pre.remove_ensures(0);
            assert forall|j: int| 0 <= j < recs@.len() implies recs.deep_view()[j] == ms.skip(
                k + 1,
            )[j] by {
                assert(recs@[j] == recs_pre[j + 1]);
                assert(recs_pre[j + 1]@ == ms.skip(k as int)[j + 1]);
            }
            assert(recs.deep_view() =~= ms.skip(k + 1));
        }
        let z = rec.atomic_number;
        if z == 0 || z > 118 {
            proof {
                lemma_place_err(ms, k + 1);
            }
            return Err(CompileError::AtomicNumberOutOfRange);
        }
        let slot = (z - 1) as usize;
        if placed[slot].is_some() {
            proof {
                assert(placed.deep_view()[slot as int] is Some);
                lemma_place_err(ms, k + 1);
            }
            return Err(CompileError::DuplicateAtomicNumber);
        }
        proof {
            assert(placed.deep_view()[slot as int] is None);
        }
        placed[slot] = Some(rec);
        proof {
            assert(placed.deep_view() =~= placed_pre.update(slot as int, Some(ms[k as int])));
        }
        k = k + 1;
    }
    proof {
        assert(ms.take(n as int) =~= ms);
    }
    // every slot must be filled: the dataset is complete by assumption, and
    // that assumption is validated here, never at runtime
    let ghost placed_full = placed.deep_view();
    let mut sorted: Vec<Record> = Vec::new();
    let mut i: usize = 0;
    proof {
        assert(placed.deep_view() =~= placed_full.skip(0));
    }
    while i < 118
        invariant
            i <= 118,
            placed@.len() == 118 - i,
            placed.deep_view() =~= placed_full.skip(i as int),
            placed_full.len() == 118,
            sorted@.len() == i,
            forall|j: int| 0 <= j < i ==> (#[trigger] placed_full[j]) is Some,
            sorted.deep_view() =~= Seq::new(i as nat, |j: int| placed_full[j].unwrap()),
        decreases 118 - i,
    {
        let ghost sorted_pre = sorted.deep_view();
        proof {
            assert(placed.deep_view()[0] == placed_full[i as int]);
        }
        let ghost pl_pre = placed@;
        let slot = placed.remove(0);
        proof {
            pl_pre.remove_ensures(0);
            assert forall|j: int| 0 <= j < placed@.len() implies placed.deep_view()[j]
                == placed_full.skip(i + 1)[j] by {
                assert(placed@[j] == pl_pre[j + 1]);
                assert(pl_pre[j + 1].deep_view() == placed_full.skip(i as int)[j + 1]);
            }
            assert(placed.deep_view() =~= placed_full.skip(i + 1));
        }
        match slot {
            Some(rec) => {
                sorted.push(rec);
                proof {
                    assert(rec@ == placed_full[i as int].unwrap());
                    assert forall|j: int| 0 <= j < i + 1 implies sorted.deep_view()[j]
                        == placed_full[j].unwrap() by {
                        if j < i {
                            assert(sorted.deep_view()[j] == sorted_pre[j]);
                        } else {
                            assert(sorted@[j] == rec);
                        }
                    }
                    assert(sorted.deep_view() =~= Seq::new(
                        (i + 1) as nat,
                        |j: int| placed_full[j].unwrap(),
                    ));
                }
            }
            None => {
                proof {
                    assert(placed_full[i as int] is None);
                }
                return Err(CompileError::MissingAtomicNumber);
            }
        }
        i = i + 1;
    }
    proof {
        assert(forall|j: int| 0 <= j < 118 ==> (#[trigger] placed_full[j]) is Some);
    }
    Ok(sorted)
}


/// Types every field of the canonical record set and assembles the compiled
/// table, index tables included.
#[verifier::loop_isolation(false)]
#[verifier::rlimit(100)]
fn build_table(records: &Vec<Record>, cfgs: Vec<ElectronicConfiguration>) -> (r: Result<
    PeriodicTable,
    CompileError,
>)
    requires
        records.deep_view().len() == 118,
        cfgs@.len() == 118,
    ensures
        ({
            let ms = records.deep_view();
            match r {
                Ok(t) => {
                    &&& spec_first_element_error(ms, 118) is None
                    &&& !dup_symbols(ms)
                    &&& !dup_lower_names(ms)
                    &&& t.wf()
                    &&& t@ == spec_model_of(ms, cfgs.deep_view())
                },
                Err(e) => match spec_first_element_error(ms, 118) {
                    Some(e2) => e == e2,
                    None => {
                        if dup_symbols(ms) {
                            e == CompileError::DuplicateSymbol
                        } else if dup_lower_names(ms) {
                            e == CompileError::DuplicateName
                        } else {
                            false
                        }
                    },
                },
            }
        }),
{
    let ghost ms = records.deep_view();
    let mut symbols: Vec<String> = Vec::new();
    let mut names: Vec<String> = Vec::new();
    let mut atomic_masses: Vec<String> = Vec::new();
    let mut electronegativities: Vec<String> = Vec::new();
    let mut atomic_radii: Vec<u16> = Vec::new();
    let mut ionization_energies: Vec<String> = Vec::new();
    let mut electron_affinities: Vec<String> = Vec::new();
    let mut densities: Vec<String> = Vec::new();
    let mut melting_points: Vec<String> = Vec::new();
    let mut boiling_points: Vec<String> = Vec::new();
    let mut config_texts: Vec<String> = Vec::new();
    let mut cpk: Vec<[u8; 3]> = Vec::new();
    let mut states: Vec<StateOfMatter> = Vec::new();
    let mut groups: Vec<GroupBlock> = Vec::new();
    let mut years: Vec<u16> = Vec::new();
    let mut ox_flat: Vec<i8> = Vec::new();
    let mut ox_runs: Vec<(usize, usize)> = Vec::new();
    let mut i: usize = 0;
    while i < 118
        invariant
            i <= 118,
            spec_first_element_error(ms, i as int) is None,
            symbols@.len() == i,
            forall|j: int| 0 <= j < i ==> symbols.deep_view()[j] == ms[j].symbol,
            names@.len() == i,
            forall|j: int| 0 <= j < i ==> names.deep_view()[j] == ms[j].name,
            atomic_masses@.len() == i,
            forall|j: int|
                0 <= j < i ==> atomic_masses.deep_view()[j] == canonical_decimal(
                    ms[j].atomic_mass,
                ),
            electronegativities@.len() == i,
            forall|j: int|
                0 <= j < i ==> electronegativities.deep_view()[j] == canonical_decimal(
                    ms[j].electronegativity,
                ),
            atomic_radii@.len() == i,
            forall|j: int|
                0 <= j < i ==> (#[trigger] atomic_radii@[j]) as int == spec_radius(
                    ms[j].atomic_radius,
                ).unwrap(),
            ionization_energies@.len() == i,
            forall|j: int|
                0 <= j < i ==> ionization_energies.deep_view()[j] == canonical_decimal(
                    ms[j].ionization_energy,
                ),
            electron_affinities@.len() == i,
            forall|j: int|
                0 <= j < i ==> electron_affinities.deep_view()[j] == canonical_decimal(
                    ms[j].electron_affinity,
                ),
            densities@.len() == i,
            forall|j: int|
                0 <= j < i ==> densities.deep_view()[j] == canonical_decimal(ms[j].density),
            melting_points@.len() == i,
            forall|j: int|
                0 <= j < i ==> melting_points.deep_view()[j] == canonical_decimal(
                    ms[j].melting_point,
                ),
            boiling_points@.len() == i,
            forall|j: int|
                0 <= j < i ==> boiling_points.deep_view()[j] == canonical_decimal(
                    ms[j].boiling_point,
                ),
            config_texts@.len() == i,
            forall|j: int|
                0 <= j < i ==> config_texts.deep_view()[j] == ms[j].electron_configuration,
            cpk@.len() == i,
            forall|j: int| 0 <= j < i ==> (#[trigger] cpk@[j])@ == spec_cpk(ms[j].cpk),
            states@.len() == i,
            forall|j: int|
                0 <= j < i ==> (#[trigger] states@[j]) == spec_state(
                    ms[j].standard_state,
                ).unwrap(),
            groups@.len() == i,
            forall|j: int|
                0 <= j < i ==> (#[trigger] groups@[j]) == spec_group(ms[j].group_block).unwrap(),
            years@.len() == i,
            forall|j: int|
                0 <= j < i ==> (#[trigger] years@[j]) as int == spec_year(
                    ms[j].year_discovered,
                ).unwrap(),
            ox_runs@.len() == i,
            i > 0 ==> ox_runs@[0].0 == 0,
            forall|j: int|
                0 <= j < i - 1 ==> (#[trigger] ox_runs@[j + 1]).0 == ox_runs@[j].0
                    + ox_runs@[j].1,
            i > 0 ==> ox_runs@[i - 1].0 + ox_runs@[i - 1].1 == ox_flat@.len(),
            i == 0 ==> ox_flat@.len() == 0,
            forall|j: int|
                0 <= j < i ==> (#[trigger] ox_runs@[j]).0 + ox_runs@[j].1 <= ox_flat@.len(),
            forall|j: int|
                0 <= j < i ==> ox_flat@.subrange(
                    (#[trigger] ox_runs@[j]).0 as int,
                    ox_runs@[j].0 + ox_runs@[j].1,
                ) == ms[j].oxidation_states,
        decreases 118 - i,
    {
        let rec = &records[i];
        proof {
            assert(rec@ == ms[i as int]);
        }
        // fatal field checks, in field order
        let radius = match parse_radius(rec.atomic_radius.as_str()) {
            Some(x) => x,
            None => {
                proof {
                    lemma_first_element_error_found(ms, i + 1, 118);
                }
                return Err(CompileError::AtomicRadiusUnparsable);
            }
        };
        let year = match parse_year(rec.year_discovered.as_str()) {
            Some(x) => x,
            None => {
                proof {
                    lemma_first_element_error_found(ms, i + 1, 118);
                }
                return Err(CompileError::YearUnparsable);
            }
        };
        let state = match parse_state(rec.standard_state.as_str()) {
            Some(x) => x,
            None => {
                proof {
                    lemma_first_element_error_found(ms, i + 1, 118);
                }
                return Err(CompileError::UnknownStandardState);
            }
        };
        let group = match parse_group(rec.group_block.as_str()) {
            Some(x) => x,
            None => {
                proof {
                    lemma_first_element_error_found(ms, i + 1, 118);
                }
                return Err(CompileError::UnknownGroupBlock);
            }
        };
        proof {
            assert(spec_element_error(ms, i as int) is None);
        }
        let ghost p_symbols = symbols.deep_view();
        let ghost p_names = names.deep_view();
        let ghost p_masses = atomic_masses.deep_view();
        let ghost p_electroneg = electronegativities.deep_view();
        let ghost p_ionization = ionization_energies.deep_view();
        let ghost p_affinity = electron_affinities.deep_view();
        let ghost p_density = densities.deep_view();
        let ghost p_melting = melting_points.deep_view();
        let ghost p_boiling = boiling_points.deep_view();
        let ghost p_configs = config_texts.deep_view();
        symbols.push(rec.symbol.clone());
        names.push(rec.name.clone());
        atomic_masses.push(canonicalize_decimal(rec.atomic_mass.as_str()));
        electronegativities.push(canonicalize_decimal(rec.electronegativity.as_str()));
        atomic_radii.push(radius);
        ionization_energies.push(canonicalize_decimal(rec.ionization_energy.as_str()));
        electron_affinities.push(canonicalize_decimal(rec.electron_affinity.as_str()));
        densities.push(canonicalize_decimal(rec.density.as_str()));
        melting_points.push(canonicalize_decimal(rec.melting_point.as_str()));
        boiling_points.push(canonicalize_decimal(rec.boiling_point.as_str()));
        config_texts.push(rec.electron_configuration.clone());
        cpk.push(decode_cpk(rec.cpk.as_str()));
        states.push(state);
        groups.push(group);
        years.push(year);
        proof {
            let ii = i as int;
            assert(symbols.deep_view() =~= p_symbols.push(ms[ii].symbol));
            assert(names.deep_view() =~= p_names.push(ms[ii].name));
            assert(atomic_masses.deep_view() =~= p_masses.push(
                canonical_decimal(ms[ii].atomic_mass),
            ));
            assert(electronegativities.deep_view() =~= p_electroneg.push(
                canonical_decimal(ms[ii].electronegativity),
            ));
            assert(ionization_energies.deep_view() =~= p_ionization.push(
                canonical_decimal(ms[ii].ionization_energy),
            ));
            assert(electron_affinities.deep_view() =~= p_affinity.push(
                canonical_decimal(ms[ii].electron_affinity),
            ));
            assert(densities.deep_view() =~= p_density.push(canonical_decimal(ms[ii].density)));
            assert(melting_points.deep_view() =~= p_melting.push(
                canonical_decimal(ms[ii].melting_point),
            ));
            assert(boiling_points.deep_view() =~= p_boiling.push(
                canonical_decimal(ms[ii].boiling_point),
            ));
            assert(config_texts.deep_view() =~= p_configs.push(ms[ii].electron_configuration));
        }
        let start = ox_flat.len();
        let m = rec.oxidation_states.len();
        let ghost flat_pre = ox_flat@;
        let mut k: usize = 0;
        while k < m
            invariant
                k <= m,
                m == ms[i as int].oxidation_states.len(),
                ox_flat@ == flat_pre + ms[i as int].oxidation_states.take(k as int),
            decreases m - k,
        {
            ox_flat.push(rec.oxidation_states[k]);
            proof {
                assert(ox_flat@ =~= flat_pre + ms[i as int].oxidation_states.take(k + 1));
            }
            k = k + 1;
        }
        proof {
            assert(ms[i as int].oxidation_states.take(m as int) =~= ms[i as int].oxidation_states);
        }
        let ghost runs_pre = ox_runs@;
        ox_runs.push((start, m));
        proof {
            // earlier runs keep their slices; the new run covers exactly the
            // states appended for this element
            assert forall|j: int|
                0 <= j < i + 1 implies ox_flat@.subrange(
                (#[trigger] ox_runs@[j]).0 as int,
                ox_runs@[j].0 + ox_runs@[j].1,
            ) == ms[j].oxidation_states by {
                if j < i {
                    assert(ox_runs@[j] == runs_pre[j]);
                    assert(ox_flat@.subrange(
                        runs_pre[j].0 as int,
                        runs_pre[j].0 + runs_pre[j].1,
                    ) =~= flat_pre.subrange(runs_pre[j].0 as int, runs_pre[j].0 + runs_pre[j].1));
                } else {
                    assert(ox_flat@.subrange(start as int, start + m) =~= ms[j].oxidation_states);
                }
            }
        }
        i = i + 1;
    }
    // index construction: identifiers keyed by symbol and by lowercased name
    let mut sym_keys: Vec<Vec<char>> = Vec::new();
    let mut i: usize = 0;
    while i < 118
        invariant
            i <= 118,
            symbols@.len() == 118,
            sym_keys@.len() == i,
            forall|j: int| 0 <= j < i ==> sym_keys.deep_view()[j] == symbols.deep_view()[j],
        decreases 118 - i,
    {
        let ghost p_keys = sym_keys.deep_view();
        sym_keys.push(str_to_chars(symbols[i].as_str()));
        proof {
            assert(sym_keys.deep_view() =~~= p_keys.push(symbols.deep_view()[i as int]));
        }
        i = i + 1;
    }
    let sym_index = match build_sorted_index(&sym_keys) {
        Some(idx) => idx,
        None => {
            proof {
                let (a, b): (int, int) = choose|a: int, b: int|
                    0 <= a < b < sym_keys@.len() && sym_keys.deep_view()[a]
                        == sym_keys.deep_view()[b];
                assert(ms[a].symbol == ms[b].symbol);
                assert(dup_symbols(ms));
            }
            return Err(CompileError::DuplicateSymbol);
        }
    };
    proof {
        assert(!dup_symbols(ms)) by {
            if dup_symbols(ms) {
                let (a, b): (int, int) = choose|a: int, b: int|
                    0 <= a < b < ms.len() && (#[trigger] ms[a]).symbol == (#[trigger] ms[b]).symbol;
                assert(sym_keys.deep_view()[a] == sym_keys.deep_view()[b]);
            }
        }
    }
    let mut name_keys: Vec<Vec<char>> = Vec::new();
    let mut i: usize = 0;
    while i < 118
        invariant
            i <= 118,
            names@.len() == 118,
            name_keys@.len() == i,
            forall|j: int| 0 <= j < i ==> name_keys.deep_view()[j] == lower(names.deep_view()[j]),
        decreases 118 - i,
    {
        let ghost p_keys = name_keys.deep_view();
        name_keys.push(str_to_lower_chars(names[i].as_str()));
        proof {
            assert(name_keys.deep_view() =~~= p_keys.push(lower(names.deep_view()[i as int])));
        }
        i = i + 1;
    }
    let name_index = match build_sorted_index(&name_keys) {
        Some(idx) => idx,
        None => {
            proof {
                let (a, b): (int, int) = choose|a: int, b: int|
                    0 <= a < b < name_keys@.len() && name_keys.deep_view()[a]
                        == name_keys.deep_view()[b];
                assert(lower(ms[a].name) == lower(ms[b].name));
                assert(dup_lower_names(ms));
            }
            return Err(CompileError::DuplicateName);
        }
    };
    proof {
        assert(!dup_lower_names(ms)) by {
            if dup_lower_names(ms) {
                let (a, b): (int, int) = choose|a: int, b: int|
                    0 <= a < b < ms.len() && lower((#[trigger] ms[a]).name) == lower(
                        (#[trigger] ms[b]).name,
                    );
                assert(name_keys.deep_view()[a] == name_keys.deep_view()[b]);
            }
        }
    }
    let t = PeriodicTable {
        symbols,
        names,
        atomic_masses,
        electronegativities,
        atomic_radii,
        ionization_energies,
        electron_affinities,
        densities,
        melting_points,
        boiling_points,
        config_texts,
        configs: cfgs,
        cpk,
        states,
        groups,
        years,
        ox_flat,
        ox_runs,
        sym_index,
        name_index,
    };
    proof {
        let mm = spec_model_of(ms, t.configs.deep_view());
        assert(sym_keys.deep_view() =~= t.symbols.deep_view());
        assert(name_keys.deep_view() =~= lower_all(t.names.deep_view()));
        assert(t@.symbols =~= mm.symbols);
        assert(t@.names =~= mm.names);
        assert(t@.atomic_masses =~= mm.atomic_masses);
        assert(t@.electronegativities =~= mm.electronegativities);
        assert(t@.atomic_radii =~= mm.atomic_radii);
        assert(t@.ionization_energies =~= mm.ionization_energies);
        assert(t@.electron_affinities =~= mm.electron_affinities);
        assert(t@.densities =~= mm.densities);
        assert(t@.melting_points =~= mm.melting_points);
        assert(t@.boiling_points =~= mm.boiling_points);
        assert(t@.config_texts =~= mm.config_texts);
        assert(t@.configs =~= mm.configs);
        assert(t@.cpk =~= mm.cpk);
        assert(t@.states =~= mm.states);
        assert(t@.groups =~= mm.groups);
        assert(t@.years =~= mm.years);
        assert(t@.ox =~= mm.ox);
        assert(t@ =~= mm);
    }
    Ok(t)
}

impl PeriodicTable {
    /// Compiles the raw column-oriented document - its column names and its
    /// rows of cells - into the full set of lookup tables, or aborts on the
    /// first fatal error, producing no partial tables.
    pub fn compile(columns: &Vec<String>, rows: &Vec<Vec<String>>) -> (r: Result<
        PeriodicTable,
        CompileError,
    >)
        ensures
            match r {
                Ok(t) => t.wf() && spec_compile(columns.deep_view(), rows.deep_view()) == Ok::<
                    TableModel,
                    CompileError,
                >(t@),
                Err(e) => spec_compile(columns.deep_view(), rows.deep_view()) == Err::<
                    TableModel,
                    CompileError,
                >(e),
            },
    {
        let recs = match normalize_all(columns, rows) {
            Ok(x) => x,
            Err(e) => {
                return Err(e);
            }
        };
        let records = match place_records(recs) {
            Ok(x) => x,
            Err(e) => {
                return Err(e);
            }
        };
        let ghost ms = records.deep_view();
        let cfgs = match resolve_configurations(&records) {
            Ok(x) => x,
            Err(e) => {
                proof {
                    assert(rec_views(records@) =~= model_views(ms));
                }
                return Err(e);
            }
        };
        proof {
            assert(rec_views(records@) =~= model_views(ms));
        }
        match build_table(&records, cfgs) {
            Ok(t) => Ok(t),
            Err(e) => Err(e),
        }
    }
}

} // verus!
