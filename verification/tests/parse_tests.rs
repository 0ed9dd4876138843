use periodic_table::config::resolve_configurations;
use periodic_table::fields::{
    canonicalize_decimal, decode_cpk, parse_group, parse_radius, parse_state, parse_year,
};
use periodic_table::ox::parse_oxidation_cell;
use periodic_table::record::normalize_row;
use periodic_table::{CompileError, ElectronicConfiguration, GroupBlock, StateOfMatter};

#[test]
fn oxidation_cell_skips_malformed_tokens() {
    assert_eq!(parse_oxidation_cell("abc, +2, -1"), vec![2, -1]);
}

#[test]
fn oxidation_cell_forms() {
    assert_eq!(parse_oxidation_cell("-1, +1, +3, +5, +7"), vec![-1, 1, 3, 5, 7]);
    // a bare digit other than zero does not begin a state token
    assert_eq!(parse_oxidation_cell("-1, 1, 3, 5, 7"), vec![-1]);
    assert_eq!(parse_oxidation_cell("+4"), vec![4]);
    assert_eq!(parse_oxidation_cell("0"), vec![0]);
    assert_eq!(parse_oxidation_cell("012"), vec![12]);
    assert_eq!(parse_oxidation_cell(""), Vec::<i8>::new());
    assert_eq!(parse_oxidation_cell("  ,  "), Vec::<i8>::new());
    assert_eq!(parse_oxidation_cell("+"), vec![0]);
    assert_eq!(parse_oxidation_cell("-2x"), vec![-2]);
    // magnitudes outside the signed byte range are skipped, not wrapped
    assert_eq!(parse_oxidation_cell("+127, +128, -128, -129"), vec![127, -128]);
}

#[test]
fn cpk_decoding() {
    assert_eq!(decode_cpk("1FF01F"), [31, 240, 31]);
    assert_eq!(decode_cpk("1ff01f"), [31, 240, 31]);
    assert_eq!(decode_cpk("FFFFFF"), [255, 255, 255]);
    assert_eq!(decode_cpk("000000"), [0, 0, 0]);
    assert_eq!(decode_cpk(""), [0, 0, 0]);
    assert_eq!(decode_cpk("1FF0"), [0, 0, 0]);
    assert_eq!(decode_cpk("ZZZZZZ"), [0, 0, 0]);
    assert_eq!(decode_cpk("A0B0C0D0"), [160, 176, 192]);
}

#[test]
fn decimal_canonicalization() {
    assert_eq!(canonicalize_decimal("12"), "12.");
    assert_eq!(canonicalize_decimal("1.008"), "1.008");
    assert_eq!(canonicalize_decimal(""), "0.");
    assert_eq!(canonicalize_decimal("0.5"), "0.5");
}

#[test]
fn state_mapping() {
    assert_eq!(parse_state("Solid"), Some(StateOfMatter::Solid));
    assert_eq!(parse_state("LIQUID"), Some(StateOfMatter::Liquid));
    assert_eq!(parse_state("gas"), Some(StateOfMatter::Gas));
    assert_eq!(parse_state("Expected to be a Solid"), Some(StateOfMatter::Solid));
    assert_eq!(parse_state("Expected to be a Gas"), Some(StateOfMatter::Gas));
    assert_eq!(parse_state("plasma"), None);
    assert_eq!(parse_state(""), None);
}

#[test]
fn group_mapping() {
    assert_eq!(parse_group("Halogen"), Some(GroupBlock::Halogen));
    assert_eq!(parse_group("noble gas"), Some(GroupBlock::NobleGas));
    assert_eq!(parse_group("Transition metal"), Some(GroupBlock::TransitionMetal));
    assert_eq!(parse_group("Post-transition metal"), Some(GroupBlock::PostTransitionMetal));
    assert_eq!(parse_group("Alkali metal"), Some(GroupBlock::AlkaliMetal));
    assert_eq!(parse_group("Alkaline earth metal"), Some(GroupBlock::AlkalineEarthMetal));
    assert_eq!(parse_group("Metalloid"), Some(GroupBlock::Metalloid));
    assert_eq!(parse_group("Nonmetal"), Some(GroupBlock::NonMetal));
    assert_eq!(parse_group("Actinide"), Some(GroupBlock::Actinide));
    assert_eq!(parse_group("Lanthanide"), Some(GroupBlock::Lanthanide));
    assert_eq!(parse_group("metal"), None);
}

#[test]
fn year_parsing() {
    assert_eq!(parse_year(""), Some(0));
    assert_eq!(parse_year("Ancient"), Some(0));
    assert_eq!(parse_year("1886"), Some(1886));
    assert_eq!(parse_year("ancient"), None);
    assert_eq!(parse_year("12th century"), None);
}

#[test]
fn radius_parsing() {
    assert_eq!(parse_radius(""), Some(0));
    assert_eq!(parse_radius("175"), Some(175));
    assert_eq!(parse_radius("17.5"), None);
}

fn two_column_row(symbol: &str, config: &str, z: &str) -> Vec<String> {
    vec![String::from(z), String::from(symbol), String::from(config)]
}

fn small_columns() -> Vec<String> {
    vec![
        String::from("AtomicNumber"),
        String::from("Symbol"),
        String::from("ElectronConfiguration"),
    ]
}

#[test]
fn configuration_resolution_neon_and_chlorine() {
    let cols = small_columns();
    let ne = normalize_row(&cols, &two_column_row("Ne", "1s2 2s2 2p6", "10")).unwrap();
    let cl = normalize_row(&cols, &two_column_row("Cl", "[Ne] 3s2 3p5", "17")).unwrap();
    let cfgs = resolve_configurations(&vec![ne, cl]).unwrap();
    assert_eq!(
        cfgs[0],
        ElectronicConfiguration {
            s: [2, 2, 0, 0, 0, 0, 0],
            p: [6, 0, 0, 0, 0, 0],
            d: [0, 0, 0, 0],
            f: [0, 0],
        }
    );
    assert_eq!(
        cfgs[1],
        ElectronicConfiguration {
            s: [2, 2, 2, 0, 0, 0, 0],
            p: [6, 5, 0, 0, 0, 0],
            d: [0, 0, 0, 0],
            f: [0, 0],
        }
    );
}

#[test]
fn configuration_annotation_discarded() {
    let cols = small_columns();
    let rec = normalize_row(&cols, &two_column_row("H", "1s1 (uncertain)", "1")).unwrap();
    let cfgs = resolve_configurations(&vec![rec]).unwrap();
    assert_eq!(cfgs[0].s, [1, 0, 0, 0, 0, 0, 0]);
}

#[test]
fn configuration_empty_is_all_zero() {
    let cols = small_columns();
    let rec = normalize_row(&cols, &two_column_row("H", "", "1")).unwrap();
    let cfgs = resolve_configurations(&vec![rec]).unwrap();
    assert_eq!(
        cfgs[0],
        ElectronicConfiguration { s: [0; 7], p: [0; 6], d: [0; 4], f: [0; 2] }
    );
}

#[test]
fn configuration_tokens_overwrite() {
    let cols = small_columns();
    let ne = normalize_row(&cols, &two_column_row("Ne", "1s2 2s2 2p6", "10")).unwrap();
    let na = normalize_row(&cols, &two_column_row("Na", "[Ne] 2p3 3s1", "11")).unwrap();
    let cfgs = resolve_configurations(&vec![ne, na]).unwrap();
    // the explicit 2p3 token overwrites the referenced base's 2p6
    assert_eq!(cfgs[1].p, [3, 0, 0, 0, 0, 0]);
    assert_eq!(cfgs[1].s, [2, 2, 1, 0, 0, 0, 0]);
}

#[test]
fn configuration_shell_range_errors() {
    let cols = small_columns();
    let bad = normalize_row(&cols, &two_column_row("H", "8s1", "1")).unwrap();
    assert!(matches!(
        resolve_configurations(&vec![bad]),
        Err(CompileError::ShellOutOfRange)
    ));
    let bad = normalize_row(&cols, &two_column_row("H", "5f2 6f2", "1")).unwrap();
    assert!(matches!(
        resolve_configurations(&vec![bad]),
        Err(CompileError::ShellOutOfRange)
    ));
    let ok = normalize_row(&cols, &two_column_row("H", "7s2 7p1 6d1 5f14", "1")).unwrap();
    let cfgs = resolve_configurations(&vec![ok]).unwrap();
    assert_eq!(cfgs[0].s[6], 2);
    assert_eq!(cfgs[0].p[5], 1);
    assert_eq!(cfgs[0].d[3], 1);
    assert_eq!(cfgs[0].f[1], 14);
}

#[test]
fn normalize_row_assigns_by_column_name() {
    let cols = vec![
        String::from("Name"),
        String::from("AtomicNumber"),
        String::from("Unknown"),
        String::from("Symbol"),
    ];
    let row = vec![
        String::from("Iron"),
        String::from("26"),
        String::from("whatever"),
        String::from("Fe"),
    ];
    let rec = normalize_row(&cols, &row).unwrap();
    assert_eq!(rec.atomic_number, 26);
    assert_eq!(rec.name, "Iron");
    assert_eq!(rec.symbol, "Fe");
    assert_eq!(rec.atomic_mass, "");
}

#[test]
fn normalize_row_errors() {
    let cols = small_columns();
    let row = vec![
        String::from("1"),
        String::from("H"),
        String::from("1s1"),
        String::from("extra"),
    ];
    assert!(matches!(
        normalize_row(&cols, &row),
        Err(CompileError::RowWiderThanColumns)
    ));
    assert!(matches!(
        normalize_row(&cols, &two_column_row("H", "1s1", "one")),
        Err(CompileError::AtomicNumberUnparsable)
    ));
    assert!(matches!(
        normalize_row(&cols, &two_column_row("H", "1s1", "300")),
        Err(CompileError::AtomicNumberUnparsable)
    ));
}
