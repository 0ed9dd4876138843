use periodic_table::{
    periodic_table, CompileError, Element, GroupBlock, PeriodicTable, StateOfMatter,
};

fn columns() -> Vec<String> {
    vec![
        "AtomicNumber",
        "Symbol",
        "Name",
        "AtomicMass",
        "CPKHexColor",
        "ElectronConfiguration",
        "Electronegativity",
        "AtomicRadius",
        "IonizationEnergy",
        "ElectronAffinity",
        "OxidationStates",
        "StandardState",
        "MeltingPoint",
        "BoilingPoint",
        "Density",
        "GroupBlock",
        "YearDiscovered",
    ]
    .into_iter()
    .map(String::from)
    .collect()
}

fn default_row(z: usize) -> Vec<String> {
    vec![
        z.to_string(),
        format!("E{}", z),
        format!("Element{}", z),
        z.to_string(),
        String::new(),
        String::from("1s1"),
        String::from("1.5"),
        String::from("100"),
        String::from("5.0"),
        String::from("0.5"),
        String::from("+1"),
        String::from("Solid"),
        String::from("300"),
        String::from("400"),
        String::from("1.0"),
        String::from("Nonmetal"),
        String::new(),
    ]
}

fn dataset() -> Vec<Vec<String>> {
    let mut rows = Vec::new();
    for z in 1..=118usize {
        let mut row = default_row(z);
        if z == 10 {
            row[1] = String::from("Ne");
            row[2] = String::from("Neon");
            row[5] = String::from("1s2 2s2 2p6");
            row[11] = String::from("Gas");
            row[15] = String::from("Noble gas");
        }
        if z == 17 {
            row[1] = String::from("Cl");
            row[2] = String::from("Chlorine");
            row[3] = String::from("35.45");
            row[5] = String::from("[Ne] 3s2 3p5");
            row[4] = String::from("1FF01F");
            row[10] = String::from("-1, +1, +3, +5, +7");
            row[11] = String::from("Gas");
            row[15] = String::from("Halogen");
        }
        if z == 26 {
            row[16] = String::from("Ancient");
        }
        if z == 32 {
            row[16] = String::from("1886");
        }
        rows.push(row);
    }
    rows
}

fn table() -> PeriodicTable {
    PeriodicTable::compile(&columns(), &dataset()).unwrap()
}

#[test]
fn atomic_number_roundtrip_all() {
    for z in 1..=118usize {
        let e = Element::from_atomic_number(z).unwrap();
        assert_eq!(e.get_atomic_number(), z);
        assert_eq!(e.get_id() as usize, z - 1);
    }
    assert!(Element::from_atomic_number(0).is_none());
    assert!(Element::from_atomic_number(119).is_none());
}

#[test]
fn from_id_bounds() {
    assert!(Element::from_id(0).is_some());
    assert_eq!(Element::from_id(117).unwrap().get_atomic_number(), 118);
    assert!(Element::from_id(118).is_none());
    assert!(Element::from_id(255).is_none());
}

#[test]
fn own_symbol_roundtrip_all() {
    let t = table();
    let mut it = periodic_table();
    while let Some(e) = it.next() {
        let sym = e.get_symbol(&t);
        let back = Element::from_symbol(&t, &sym).unwrap();
        assert_eq!(back.get_id(), e.get_id());
    }
}

#[test]
fn own_name_roundtrip_any_casing() {
    let t = table();
    let mut it = periodic_table();
    while let Some(e) = it.next() {
        let name = e.get_name(&t);
        let upper = name.to_uppercase();
        let lower = name.to_lowercase();
        assert_eq!(
            Element::from_name_case_insensitive(&t, &upper).unwrap().get_id(),
            e.get_id()
        );
        assert_eq!(
            Element::from_name_case_insensitive(&t, &name).unwrap().get_id(),
            e.get_id()
        );
        assert_eq!(Element::from_name(&t, &lower).unwrap().get_id(), e.get_id());
    }
}

#[test]
fn from_name_wants_lowercase() {
    let t = table();
    assert!(Element::from_name(&t, "Chlorine").is_none());
    assert!(Element::from_name(&t, "chlorine").is_some());
}

#[test]
fn unknown_keys_are_no_match() {
    let t = table();
    assert!(Element::from_symbol(&t, "Xx").is_none());
    assert!(Element::from_symbol(&t, "").is_none());
    assert!(Element::from_name(&t, "unobtanium").is_none());
    assert!(Element::from_name_case_insensitive(&t, "Unobtanium").is_none());
}

#[test]
fn chlorine_end_to_end() {
    let t = table();
    let e = Element::from_atomic_number(17).unwrap();
    assert_eq!(e.get_id(), 16);
    let by_symbol = Element::from_symbol(&t, "Cl").unwrap();
    assert_eq!(by_symbol.get_id(), 16);
    assert_eq!(e.get_symbol(&t), "Cl");
    assert_eq!(e.get_name(&t), "Chlorine");
    assert_eq!(e.get_oxidation_states(&t), vec![-1, 1, 3, 5, 7]);
    assert_eq!(e.get_cpk(&t), [31, 240, 31]);
    assert_eq!(e.get_group(&t), GroupBlock::Halogen);
    assert_eq!(e.get_standard_state(&t), StateOfMatter::Gas);
    assert_eq!(e.get_atomic_mass_str(&t), "35.45");
}

#[test]
fn configurations_resolved_in_table() {
    let t = table();
    let ne = Element::from_atomic_number(10).unwrap().get_electronic_configuration(&t);
    assert_eq!(ne.s, [2, 2, 0, 0, 0, 0, 0]);
    assert_eq!(ne.p, [6, 0, 0, 0, 0, 0]);
    assert_eq!(ne.d, [0, 0, 0, 0]);
    assert_eq!(ne.f, [0, 0]);
    let cl = Element::from_atomic_number(17).unwrap().get_electronic_configuration(&t);
    assert_eq!(cl.s, [2, 2, 2, 0, 0, 0, 0]);
    assert_eq!(cl.p, [6, 5, 0, 0, 0, 0]);
    assert_eq!(cl.d, [0, 0, 0, 0]);
    assert_eq!(cl.f, [0, 0]);
    let raw = Element::from_atomic_number(17).unwrap().get_electronic_configuration_str(&t);
    assert_eq!(raw, "[Ne] 3s2 3p5");
}

#[test]
fn default_fields_typed() {
    let t = table();
    let e = Element::from_atomic_number(1).unwrap();
    assert_eq!(e.get_atomic_radius(&t), 100);
    assert_eq!(e.get_year_discovered(&t), 0);
    assert_eq!(e.get_cpk(&t), [0, 0, 0]);
    assert_eq!(e.get_atomic_mass_str(&t), "1.");
    assert_eq!(e.get_electronegativity_str(&t), "1.5");
    assert_eq!(e.get_density_str(&t), "1.0");
    assert_eq!(e.get_melting_point_str(&t), "300.");
    assert_eq!(e.get_boiling_point_str(&t), "400.");
    assert_eq!(e.get_ionization_energy_str(&t), "5.0");
    assert_eq!(e.get_electron_affinity_str(&t), "0.5");
    assert_eq!(e.get_oxidation_states(&t), vec![1]);
}

#[test]
fn years_ancient_and_numeric() {
    let t = table();
    assert_eq!(Element::from_atomic_number(26).unwrap().get_year_discovered(&t), 0);
    assert_eq!(Element::from_atomic_number(32).unwrap().get_year_discovered(&t), 1886);
}

#[test]
fn row_order_does_not_matter() {
    let mut rows = dataset();
    rows.reverse();
    let t = PeriodicTable::compile(&columns(), &rows).unwrap();
    assert_eq!(Element::from_symbol(&t, "Cl").unwrap().get_id(), 16);
    assert_eq!(Element::from_atomic_number(118).unwrap().get_symbol(&t), "E118");
}

#[test]
fn unknown_columns_ignored_and_empty_cells_default() {
    let mut cols = columns();
    cols.push(String::from("SomethingElse"));
    let mut rows = dataset();
    rows[0].push(String::from("ignored"));
    // empty optional cells fall back to defaults; so does a missing trailing cell
    rows[3][3] = String::new();
    rows[3][7] = String::new();
    rows[3][10] = String::new();
    rows[3].pop();
    let t = PeriodicTable::compile(&cols, &rows).unwrap();
    let e = Element::from_atomic_number(4).unwrap();
    assert_eq!(e.get_symbol(&t), "E4");
    assert_eq!(e.get_atomic_radius(&t), 0);
    assert_eq!(e.get_oxidation_states(&t), Vec::<i8>::new());
    assert_eq!(e.get_atomic_mass_str(&t), "0.");
    assert_eq!(e.get_year_discovered(&t), 0);
}

#[test]
fn error_row_wider_than_columns() {
    let mut rows = dataset();
    for _ in 0..18 {
        rows[5].push(String::from("x"));
    }
    assert!(matches!(
        PeriodicTable::compile(&columns(), &rows),
        Err(CompileError::RowWiderThanColumns)
    ));
}

#[test]
fn error_atomic_number_unparsable() {
    let mut rows = dataset();
    rows[7][0] = String::from("abc");
    assert!(matches!(
        PeriodicTable::compile(&columns(), &rows),
        Err(CompileError::AtomicNumberUnparsable)
    ));
}

#[test]
fn error_atomic_number_out_of_range() {
    let mut rows = dataset();
    rows[7][0] = String::from("119");
    assert!(matches!(
        PeriodicTable::compile(&columns(), &rows),
        Err(CompileError::AtomicNumberOutOfRange)
    ));
    let mut rows = dataset();
    rows[7][0] = String::from("0");
    assert!(matches!(
        PeriodicTable::compile(&columns(), &rows),
        Err(CompileError::AtomicNumberOutOfRange)
    ));
}

#[test]
fn error_duplicate_atomic_number() {
    let mut rows = dataset();
    rows[7][0] = String::from("9");
    assert!(matches!(
        PeriodicTable::compile(&columns(), &rows),
        Err(CompileError::DuplicateAtomicNumber)
    ));
}

#[test]
fn error_missing_atomic_number() {
    let mut rows = dataset();
    rows.pop();
    assert!(matches!(
        PeriodicTable::compile(&columns(), &rows),
        Err(CompileError::MissingAtomicNumber)
    ));
}

#[test]
fn error_shell_out_of_range() {
    let mut rows = dataset();
    rows[4][5] = String::from("8s2");
    assert!(matches!(
        PeriodicTable::compile(&columns(), &rows),
        Err(CompileError::ShellOutOfRange)
    ));
}

#[test]
fn error_unknown_reference() {
    let mut rows = dataset();
    rows[4][5] = String::from("[Xx] 2s2");
    assert!(matches!(
        PeriodicTable::compile(&columns(), &rows),
        Err(CompileError::UnknownConfigurationReference)
    ));
}

#[test]
fn error_configuration_malformed() {
    let mut rows = dataset();
    rows[4][5] = String::from("1x2");
    assert!(matches!(
        PeriodicTable::compile(&columns(), &rows),
        Err(CompileError::ConfigurationMalformed)
    ));
}

#[test]
fn error_unknown_standard_state() {
    let mut rows = dataset();
    rows[4][11] = String::from("plasma");
    assert!(matches!(
        PeriodicTable::compile(&columns(), &rows),
        Err(CompileError::UnknownStandardState)
    ));
}

#[test]
fn error_unknown_group_block() {
    let mut rows = dataset();
    rows[4][15] = String::from("superactinide");
    assert!(matches!(
        PeriodicTable::compile(&columns(), &rows),
        Err(CompileError::UnknownGroupBlock)
    ));
}

#[test]
fn error_year_unparsable() {
    let mut rows = dataset();
    rows[4][16] = String::from("long ago");
    assert!(matches!(
        PeriodicTable::compile(&columns(), &rows),
        Err(CompileError::YearUnparsable)
    ));
}

#[test]
fn error_radius_unparsable() {
    let mut rows = dataset();
    rows[4][7] = String::from("12x");
    assert!(matches!(
        PeriodicTable::compile(&columns(), &rows),
        Err(CompileError::AtomicRadiusUnparsable)
    ));
}

#[test]
fn error_duplicate_symbol() {
    let mut rows = dataset();
    rows[4][1] = String::from("E7");
    assert!(matches!(
        PeriodicTable::compile(&columns(), &rows),
        Err(CompileError::DuplicateSymbol)
    ));
}

#[test]
fn error_duplicate_name_case_insensitive() {
    let mut rows = dataset();
    rows[4][2] = String::from("ELEMENT7");
    assert!(matches!(
        PeriodicTable::compile(&columns(), &rows),
        Err(CompileError::DuplicateName)
    ));
}

#[test]
fn oxidation_slices_cover_all_elements() {
    let t = table();
    let mut total = 0usize;
    let mut it = periodic_table();
    while let Some(e) = it.next() {
        let states = e.get_oxidation_states(&t);
        if e.get_atomic_number() == 17 {
            assert_eq!(states, vec![-1, 1, 3, 5, 7]);
        } else {
            assert_eq!(states, vec![1]);
        }
        total += states.len();
    }
    // 117 single-state elements plus chlorine's five states
    assert_eq!(total, 122);
}

#[test]
fn states_and_groups_mapped() {
    let t = table();
    assert_eq!(
        Element::from_atomic_number(10).unwrap().get_standard_state(&t),
        StateOfMatter::Gas
    );
    assert_eq!(
        Element::from_atomic_number(10).unwrap().get_group(&t),
        GroupBlock::NobleGas
    );
    assert_eq!(
        Element::from_atomic_number(1).unwrap().get_standard_state(&t),
        StateOfMatter::Solid
    );
    assert_eq!(
        Element::from_atomic_number(1).unwrap().get_group(&t),
        GroupBlock::NonMetal
    );
}
