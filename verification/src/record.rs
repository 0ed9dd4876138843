//! The record normalizer: turns one raw row of the column-oriented source
//! document into a typed intermediate record, tolerant of absent fields.
//! Cells are matched to their column by position; unknown columns are
//! ignored, empty cells leave the field at its default, and of several
//! non-empty cells under one column the last assignment wins.
use vstd::prelude::*;

use crate::error::CompileError;
use crate::ox::{parse_oxidation_cell, spec_ox_cell};
use crate::text::{digits_val, parse_uint_str, spec_parse_uint, str_eq};

verus! {

/// The typed intermediate record, created once during normalization,
/// consumed by the table compiler, then discarded. Numeric-looking fields
/// stay textual here; the compiler types them.
pub struct Record {
    pub atomic_number: u8,
    pub symbol: String,
    pub name: String,
    pub atomic_mass: String,
    pub cpk: String,
    pub electron_configuration: String,
    pub electronegativity: String,
    pub atomic_radius: String,
    pub ionization_energy: String,
    pub electron_affinity: String,
    pub oxidation_states: Vec<i8>,
    pub standard_state: String,
    pub melting_point: String,
    pub boiling_point: String,
    pub density: String,
    pub group_block: String,
    pub year_discovered: String,
}

/// The mathematical shadow of a `Record`.
#[verifier::ext_equal]
pub struct RecModel {
    pub atomic_number: int,
    pub symbol: Seq<char>,
    pub name: Seq<char>,
    pub atomic_mass: Seq<char>,
    pub cpk: Seq<char>,
    pub electron_configuration: Seq<char>,
    pub electronegativity: Seq<char>,
    pub atomic_radius: Seq<char>,
    pub ionization_energy: Seq<char>,
    pub electron_affinity: Seq<char>,
    pub oxidation_states: Seq<i8>,
    pub standard_state: Seq<char>,
    pub melting_point: Seq<char>,
    pub boiling_point: Seq<char>,
    pub density: Seq<char>,
    pub group_block: Seq<char>,
    pub year_discovered: Seq<char>,
}

impl View for Record {
    type V = RecModel;

    open spec fn view(&self) -> RecModel {
        RecModel {
            atomic_number: self.atomic_number as int,
            symbol: self.symbol@,
            name: self.name@,
            atomic_mass: self.atomic_mass@,
            cpk: self.cpk@,
            electron_configuration: self.electron_configuration@,
            electronegativity: self.electronegativity@,
            atomic_radius: self.atomic_radius@,
            ionization_energy: self.ionization_energy@,
            electron_affinity: self.electron_affinity@,
            oxidation_states: self.oxidation_states@,
            standard_state: self.standard_state@,
            melting_point: self.melting_point@,
            boiling_point: self.boiling_point@,
            density: self.density@,
            group_block: self.group_block@,
            year_discovered: self.year_discovered@,
        }
    }
}

impl DeepView for Record {
    type V = RecModel;

    open spec fn deep_view(&self) -> RecModel {
        self.view()
    }
}

// ---------------------------------------------------------------------------
// Field assignment, cell by cell
// ---------------------------------------------------------------------------
/// The text a column of the given name leaves in its field after the whole
/// row is processed: the last non-empty cell under that column, or empty.
pub open spec fn last_assigned(cols: Seq<Seq<char>>, cells: Seq<Seq<char>>, name: Seq<char>) -> Seq<
    char,
>
    decreases cells.len(),
{
    if cells.len() == 0 {
        seq![]
    } else if cols[cells.len() - 1] == name && cells.last().len() > 0 {
        cells.last()
    } else {
        last_assigned(cols, cells.drop_last(), name)
    }
}

/// The oxidation states accumulated over the row: each non-empty cell under
/// an `OxidationStates` column appends its parsed states in order.
pub open spec fn ox_concat(cols: Seq<Seq<char>>, cells: Seq<Seq<char>>) -> Seq<i8>
    decreases cells.len(),
{
    if cells.len() == 0 {
        seq![]
    } else {
        ox_concat(cols, cells.drop_last()) + (if cols[cells.len() - 1]
            == "OxidationStates"@ && cells.last().len() > 0 {
            spec_ox_cell(cells.last())
        } else {
            seq![]
        })
    }
}

/// Whether some non-empty atomic-number cell fails to parse; that is the one
/// per-cell failure the normalizer treats as fatal.
pub open spec fn any_bad_atomic(cols: Seq<Seq<char>>, cells: Seq<Seq<char>>) -> bool {
    exists|i: int|
        0 <= i < cells.len() && cols[i] == "AtomicNumber"@ && (#[trigger] cells[i]).len() > 0
            && spec_parse_uint(cells[i], 255) is None
}

/// The atomic number the row denotes: the last non-empty atomic-number cell,
/// parsed, or zero if the row never assigns one.
pub open spec fn spec_atomic_value(cols: Seq<Seq<char>>, cells: Seq<Seq<char>>) -> int {
    let t = last_assigned(cols, cells, "AtomicNumber"@);
    if t.len() == 0 {
        0
    } else {
        digits_val(t)
    }
}

/// The record a well-formed row denotes.
pub open spec fn spec_record_of(cols: Seq<Seq<char>>, cells: Seq<Seq<char>>) -> RecModel {
    RecModel {
        atomic_number: spec_atomic_value(cols, cells),
        symbol: last_assigned(cols, cells, "Symbol"@),
        name: last_assigned(cols, cells, "Name"@),
        atomic_mass: last_assigned(cols, cells, "AtomicMass"@),
        cpk: last_assigned(cols, cells, "CPKHexColor"@),
        electron_configuration: last_assigned(cols, cells, "ElectronConfiguration"@),
        electronegativity: last_assigned(cols, cells, "Electronegativity"@),
        atomic_radius: last_assigned(cols, cells, "AtomicRadius"@),
        ionization_energy: last_assigned(cols, cells, "IonizationEnergy"@),
        electron_affinity: last_assigned(cols, cells, "ElectronAffinity"@),
        oxidation_states: ox_concat(cols, cells),
        standard_state: last_assigned(cols, cells, "StandardState"@),
        melting_point: last_assigned(cols, cells, "MeltingPoint"@),
        boiling_point: last_assigned(cols, cells, "BoilingPoint"@),
        density: last_assigned(cols, cells, "Density"@),
        group_block: last_assigned(cols, cells, "GroupBlock"@),
        year_discovered: last_assigned(cols, cells, "YearDiscovered"@),
    }
}

/// Meaning of normalizing one row against the column list: a record, or the
/// fatal error the row provokes.
pub open spec fn spec_norm_row(cols: Seq<Seq<char>>, cells: Seq<Seq<char>>) -> Result<
    RecModel,
    CompileError,
> {
    if cells.len() > cols.len() {
        Err(CompileError::RowWiderThanColumns)
    } else if any_bad_atomic(cols, cells) {
        Err(CompileError::AtomicNumberUnparsable)
    } else {
        Ok(spec_record_of(cols, cells))
    }
}

// ---------------------------------------------------------------------------
// Executable normalization
// ---------------------------------------------------------------------------
/// Builds one `Record` from a row of cells positionally aligned to the
/// column list.
#[verifier::loop_isolation(false)]
#[verifier::rlimit(30)]
pub fn normalize_row(columns: &Vec<String>, row: &Vec<String>) -> (r: Result<Record, CompileError>)
    ensures
        match r {
            Ok(rec) => spec_norm_row(columns.deep_view(), row.deep_view()) == Ok::<
                RecModel,
                CompileError,
            >(rec@),
            Err(e) => spec_norm_row(columns.deep_view(), row.deep_view()) == Err::<
                RecModel,
                CompileError,
            >(e),
        },
{
    proof {
        reveal_strlit("AtomicNumber");
        reveal_strlit("Symbol");
        reveal_strlit("Name");
        reveal_strlit("AtomicMass");
        reveal_strlit("CPKHexColor");
        reveal_strlit("ElectronConfiguration");
        reveal_strlit("Electronegativity");
        reveal_strlit("AtomicRadius");
        reveal_strlit("IonizationEnergy");
        reveal_strlit("ElectronAffinity");
        reveal_strlit("OxidationStates");
        reveal_strlit("StandardState");
        reveal_strlit("MeltingPoint");
        reveal_strlit("BoilingPoint");
        reveal_strlit("Density");
        reveal_strlit("GroupBlock");
        reveal_strlit("YearDiscovered");
        // distinguishing indexes for the column names of equal length
        assert("AtomicNumber"@[6] == 'N');
        assert("AtomicRadius"@[6] == 'R');
        assert("MeltingPoint"@[0] == 'M');
        assert("BoilingPoint"@[0] == 'B');
        assert("IonizationEnergy"@[0] == 'I');
        assert("ElectronAffinity"@[0] == 'E');
        assert("AtomicMass"@[0] == 'A');
        assert("GroupBlock"@[0] == 'G');
    }
    let ghost cols = columns.deep_view();
    let ghost cells = row.deep_view();
    if row.len() > columns.len() {
        return Err(CompileError::RowWiderThanColumns);
    }
    let mut rec = Record {
        atomic_number: 0,
        symbol: String::new(),
        name: String::new(),
        atomic_mass: String::new(),
        cpk: String::new(),
        electron_configuration: String::new(),
        electronegativity: String::new(),
        atomic_radius: String::new(),
        ionization_energy: String::new(),
        electron_affinity: String::new(),
        oxidation_states: Vec::new(),
        standard_state: String::new(),
        melting_point: String::new(),
        boiling_point: String::new(),
        density: String::new(),
        group_block: String::new(),
        year_discovered: String::new(),
    };
    proof {
        assert(cells.take(0) =~= Seq::<Seq<char>>::empty());
        assert(rec@ =~= spec_record_of(cols, cells.take(0)));
    }
    let n = row.len();
    let mut i: usize = 0;
    while i < n
        invariant
            i <= n,
            rec@ == spec_record_of(cols, cells.take(i as int)),
            !any_bad_atomic(cols, cells.take(i as int)),
        decreases n - i,
    {
        let ghost pre = cells.take(i as int);
        let ghost post = cells.take(i + 1);
        proof {
            assert(post.drop_last() =~= pre);
            assert(post.last() == cells[i as int]);
            assert forall|j: int| 0 <= j < post.len() && cols[j] == "AtomicNumber"@ && (
            #[trigger] post[j]).len() > 0 implies j == i || (pre[j].len() > 0 && cols[j]
                == "AtomicNumber"@ && 0 <= j < pre.len()) by {}
        }
        let cell = &row[i];
        if !cell.as_str().is_empty() {
            let col = columns[i].as_str();
            proof {
                assert(col@ == cols[i as int]);
                assert(cell@ == cells[i as int]);
            }
            if str_eq(col, "AtomicNumber") {
                match parse_uint_str(cell.as_str(), 255) {
                    Some(z) => {
                        rec.atomic_number = z as u8;
                        proof {
                            crate::text::lemma_digits_val_nonneg(cell@);
                        }
                    }
                    None => {
                        proof {
                            assert(cells[i as int].len() > 0);
                            assert(any_bad_atomic(cols, cells));
                        }
                        return Err(CompileError::AtomicNumberUnparsable);
                    }
                }
            } else if str_eq(col, "Symbol") {
                rec.symbol = cell.clone();
            } else if str_eq(col, "Name") {
                rec.name = cell.clone();
            } else if str_eq(col, "AtomicMass") {
                rec.atomic_mass = cell.clone();
            } else if str_eq(col, "CPKHexColor") {
                rec.cpk = cell.clone();
            } else if str_eq(col, "ElectronConfiguration") {
                rec.electron_configuration = cell.clone();
            } else if str_eq(col, "Electronegativity") {
                rec.electronegativity = cell.clone();
            } else if str_eq(col, "AtomicRadius") {
                rec.atomic_radius = cell.clone();
            } else if str_eq(col, "IonizationEnergy") {
                rec.ionization_energy = cell.clone();
            } else if str_eq(col, "ElectronAffinity") {
                rec.electron_affinity = cell.clone();
            } else if str_eq(col, "OxidationStates") {
                let mut vs = parse_oxidation_cell(cell.as_str());
                rec.oxidation_states.append(&mut vs);
            } else if str_eq(col, "StandardState") {
                rec.standard_state = cell.clone();
            } else if str_eq(col, "MeltingPoint") {
                rec.melting_point = cell.clone();
            } else if str_eq(col, "BoilingPoint") {
                rec.boiling_point = cell.clone();
            } else if str_eq(col, "Density") {
                rec.density = cell.clone();
            } else if str_eq(col, "GroupBlock") {
                rec.group_block = cell.clone();
            } else if str_eq(col, "YearDiscovered") {
                rec.year_discovered = cell.clone();
            }
            proof {
                assert(ox_concat(cols, pre) + Seq::<i8>::empty() =~= ox_concat(cols, pre));
                let m = spec_record_of(cols, post);
                assert(rec@.atomic_number == m.atomic_number);
                assert(rec@.symbol == m.symbol);
                assert(rec@.name == m.name);
                assert(rec@.atomic_mass == m.atomic_mass);
                assert(rec@.cpk == m.cpk);
                assert(rec@.electron_configuration == m.electron_configuration);
                assert(rec@.electronegativity == m.electronegativity);
                assert(rec@.atomic_radius == m.atomic_radius);
                assert(rec@.ionization_energy == m.ionization_energy);
                assert(rec@.electron_affinity == m.electron_affinity);
                assert(rec@.oxidation_states == m.oxidation_states);
                assert(rec@.standard_state == m.standard_state);
                assert(rec@.melting_point == m.melting_point);
                assert(rec@.boiling_point == m.boiling_point);
                assert(rec@.density == m.density);
                assert(rec@.group_block == m.group_block);
                assert(rec@.year_discovered == m.year_discovered);
                assert(rec@ =~= m);
            }
        } else {
            proof {
                assert(rec@.oxidation_states + Seq::<i8>::empty() =~= rec@.oxidation_states);
                assert(rec@ =~= spec_record_of(cols, post));
            }
        }
        i = i + 1;
    }
    proof {
        assert(cells.take(n as int) =~= cells);
    }
    Ok(rec)
}

} // verus!
