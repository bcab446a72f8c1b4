use spectre::errors::{Field, LAMDAError, ParseFault};
use spectre::io::LineReader;
use spectre::lamda::{partner_name, parse_coll, parse_level, parse_rad, JColumn, LAMDAData};
use spectre::text::{FloatErrorKind, IntErrorKind};

const HEADER: &str = "!MOLECULE\nCO\n!MOLECULAR WEIGHT\n28.0\n";

fn minimal() -> String {
    let mut s = String::from(HEADER);
    s.push_str("!NUMBER OF ENERGY LEVELS\n2\n!LEVEL + ENERGIES(cm^-1) + WEIGHT + J\n");
    s.push_str("1 0.0 1.0 0\n2 3.845 3.0 1\n");
    s.push_str("!NUMBER OF RADIATIVE TRANSITIONS\n1\n!TRANS + UP + LOW + EINSTEINA + FREQ + E_u\n");
    s.push_str("1 2 1 6.2e-8 115.27 5.53\n");
    s
}

fn with_partners(count: &str, blocks: &[&str]) -> String {
    let mut s = minimal();
    s.push_str("!NUMBER OF COLL PARTNERS\n");
    s.push_str(count);
    s.push('\n');
    for b in blocks {
        s.push_str(b);
    }
    s
}

fn block(code: &str, rows: &str, temps: &str) -> String {
    format!(
        "!COLLISIONS BETWEEN\n{} CO-H2 from someone\n!NUMBER OF COLL TRANS\n{}\n!NUMBER OF COLL TEMPS\n2\n!COLL TEMPS\n{}\n!TRANS + UP + LOW + COLLRATES\n",
        code,
        rows.lines().count(),
        temps
    ) + rows
}

fn f(s: &str) -> f64 {
    s.parse::<f64>().unwrap()
}

fn chars(s: &str) -> Vec<char> {
    s.chars().collect()
}

#[test]
fn minimal_catalogue_is_read() {
    let text = with_partners("0", &[]);
    let d = LAMDAData::parse(&text).unwrap();
    assert_eq!(d.name, "CO");
    assert_eq!(f(&d.weight), 28.0);
    assert_eq!(d.levels.len(), 2);
    assert_eq!(d.levels[0].id, 1);
    assert_eq!(f(&d.levels[0].energy), 0.0);
    assert_eq!(f(&d.levels[0].weight), 1.0);
    assert_eq!(d.levels[0].j, 0);
    assert_eq!(f(&d.levels[1].energy), 3.845);
    assert_eq!(f(&d.levels[1].weight), 3.0);
    assert_eq!(d.levels[1].j, 1);
    assert_eq!(d.radset.len(), 1);
    let r = &d.radset[0];
    assert_eq!((r.id, r.up, r.low), (1, 2, 1));
    assert_eq!(f(&r.einst_a), 6.2e-8);
    assert_eq!(f(&r.freq), 115.27);
    assert_eq!(f(&r.energy), 5.53);
    assert!(d.collsets.is_empty());
}

#[test]
fn partner_block_is_read() {
    let b = block("2", "1 2 1 3.3e-11 3.4e-11\n2 3 1 1.0e-11 2.0e-11 9.9\n", "10.0 20.0");
    let text = with_partners("1", &[&b]);
    let d = LAMDAData::parse(&text).unwrap();
    assert_eq!(d.collsets.len(), 1);
    let (name, set) = &d.collsets[0];
    assert_eq!(name, "p-H2");
    assert_eq!(set.temps, vec!["10.0".to_string(), "20.0".to_string()]);
    assert_eq!(set.coll_transitions.len(), 2);
    let t = &set.coll_transitions[1];
    assert_eq!(t.partner, "p-H2");
    assert_eq!((t.id, t.up, t.low), (2, 3, 1));
    assert_eq!(t.coll_rates.len(), 2);
    assert_eq!(t.coll_rates[0].temp, "10.0");
    assert_eq!(f(&t.coll_rates[1].rate), 2.0e-11);
    for t in &set.coll_transitions {
        assert_eq!(t.coll_rates.len(), set.temps.len());
    }
}

#[test]
fn repeated_partner_replaces_its_set() {
    let b1 = block("1", "1 2 1 1.0 2.0\n", "10 20");
    let b2 = block("6", "1 2 1 3.0 4.0\n", "10 20");
    let b3 = block("1", "7 2 1 5.0 6.0\n", "30 40");
    let text = with_partners("3", &[&b1, &b2, &b3]);
    let d = LAMDAData::parse(&text).unwrap();
    assert_eq!(d.collsets.len(), 2);
    assert_eq!(d.collsets[0].0, "H2");
    assert_eq!(d.collsets[0].1.temps[0], "30");
    assert_eq!(d.collsets[0].1.coll_transitions[0].id, 7);
    assert_eq!(d.collsets[1].0, "He");
}

#[test]
fn partner_code_eight_is_rejected() {
    let b = block("8", "1 2 1 1.0 2.0\n", "10 20");
    let text = with_partners("1", &[&b]);
    match LAMDAData::parse(&text) {
        Err(LAMDAError::ParseError(ParseFault::InvalidPartnerId)) => {}
        other => panic!("unexpected {:?}", other),
    }
}

#[test]
fn partner_codes_map_to_names() {
    let names = ["H2", "p-H2", "o-H2", "e", "H", "He", "H+"];
    for (i, n) in names.iter().enumerate() {
        let code = format!("{}", i + 1);
        assert_eq!(partner_name(&chars(&code)).as_deref(), Some(*n));
    }
    assert_eq!(partner_name(&chars("0")), None);
    assert_eq!(partner_name(&chars("8")), None);
    assert_eq!(partner_name(&chars("01")), None);
    assert_eq!(partner_name(&chars("")), None);
}

#[test]
fn truncated_levels_end_of_input() {
    let mut text = String::from(HEADER);
    text.push_str("!NUMBER OF ENERGY LEVELS\n3\n!LEVEL\n1 0.0 1.0 0\n2 3.845 3.0 1\n");
    match LAMDAData::parse(&text) {
        Err(LAMDAError::ParseError(ParseFault::UnexpectedEof(Field::LevelId))) => {}
        other => panic!("unexpected {:?}", other),
    }
}

#[test]
fn empty_input_lacks_name() {
    match LAMDAData::parse("") {
        Err(LAMDAError::ParseError(ParseFault::UnexpectedEof(Field::MoleculeName))) => {}
        other => panic!("unexpected {:?}", other),
    }
}

#[test]
fn missing_weight_line() {
    match LAMDAData::parse("!MOLECULE\nCO\n!WEIGHT\n") {
        Err(LAMDAError::ParseError(ParseFault::UnexpectedEof(Field::MoleculeWeight))) => {}
        other => panic!("unexpected {:?}", other),
    }
}

#[test]
fn bad_weight_is_float_error() {
    match LAMDAData::parse("!MOLECULE\nCO\n!WEIGHT\n28.0.1\n") {
        Err(LAMDAError::ParseFloat(Field::MoleculeWeight, FloatErrorKind::Invalid)) => {}
        other => panic!("unexpected {:?}", other),
    }
    match LAMDAData::parse("!MOLECULE\nCO\n!WEIGHT\n   \n") {
        Err(LAMDAError::ParseFloat(Field::MoleculeWeight, FloatErrorKind::Empty)) => {}
        other => panic!("unexpected {:?}", other),
    }
}

#[test]
fn bad_level_count_is_int_error() {
    let mut text = String::from(HEADER);
    text.push_str("!LEVELS\n-2\n");
    match LAMDAData::parse(&text) {
        Err(LAMDAError::ParseInt(Field::LevelCount, IntErrorKind::InvalidDigit)) => {}
        other => panic!("unexpected {:?}", other),
    }
    let mut text = String::from(HEADER);
    text.push_str("!LEVELS\n99999999999999999999999\n");
    match LAMDAData::parse(&text) {
        Err(LAMDAError::ParseInt(Field::LevelCount, IntErrorKind::PosOverflow)) => {}
        other => panic!("unexpected {:?}", other),
    }
}

#[test]
fn level_records() {
    let lv = parse_level(&chars("  3  12.5 5.0 2 extra"), JColumn::Optional).unwrap();
    assert_eq!((lv.id, lv.energy.as_str(), lv.weight.as_str(), lv.j), (3, "12.5", "5.0", 2));
    let lv = parse_level(&chars("3 12.5 5.0"), JColumn::Optional).unwrap();
    assert_eq!(lv.j, 0);
    let lv = parse_level(&chars("3 12.5 5.0 x"), JColumn::Optional).unwrap();
    assert_eq!(lv.j, 0);
    match parse_level(&chars("3 12.5 5.0"), JColumn::Required) {
        Err(LAMDAError::ParseError(ParseFault::MissingField(Field::LevelJ))) => {}
        other => panic!("unexpected {:?}", other),
    }
    match parse_level(&chars("3 12.5 5.0 x"), JColumn::Required) {
        Err(LAMDAError::ParseInt(Field::LevelJ, IntErrorKind::InvalidDigit)) => {}
        other => panic!("unexpected {:?}", other),
    }
    match parse_level(&chars("3 12.5"), JColumn::Optional) {
        Err(LAMDAError::ParseError(ParseFault::MissingField(Field::LevelWeight))) => {}
        other => panic!("unexpected {:?}", other),
    }
    match parse_level(&chars("3 abc 1.0"), JColumn::Optional) {
        Err(LAMDAError::ParseFloat(Field::LevelEnergy, FloatErrorKind::Invalid)) => {}
        other => panic!("unexpected {:?}", other),
    }
    match parse_level(&chars(""), JColumn::Optional) {
        Err(LAMDAError::ParseError(ParseFault::MissingField(Field::LevelId))) => {}
        other => panic!("unexpected {:?}", other),
    }
}

#[test]
fn radiative_records() {
    let r = parse_rad(&chars("5\t4 3 1.5E-06 461.04 55.3")).unwrap();
    assert_eq!((r.id, r.up, r.low), (5, 4, 3));
    assert_eq!(f(&r.einst_a), 1.5e-6);
    match parse_rad(&chars("5 4 3 1.5E-06 461.04")) {
        Err(LAMDAError::ParseError(ParseFault::MissingField(Field::RadEnergy))) => {}
        other => panic!("unexpected {:?}", other),
    }
    match parse_rad(&chars("5 four 3 1.5E-06 461.04 1")) {
        Err(LAMDAError::ParseInt(Field::RadUp, IntErrorKind::InvalidDigit)) => {}
        other => panic!("unexpected {:?}", other),
    }
}

#[test]
fn collisional_records() {
    let temps = vec!["10".to_string(), "20".to_string(), "30".to_string()];
    let p = "H2".to_string();
    let c = parse_coll(&chars("1 2 1 1e-11 2e-11 3e-11 4e-11"), &p, &temps).unwrap();
    assert_eq!(c.coll_rates.len(), 3);
    assert_eq!(c.coll_rates[2].temp, "30");
    assert_eq!(c.coll_rates[2].rate, "3e-11");
    match parse_coll(&chars("1 2 1 1e-11 2e-11"), &p, &temps) {
        Err(LAMDAError::ParseError(ParseFault::MissingField(Field::Rate))) => {}
        other => panic!("unexpected {:?}", other),
    }
    match parse_coll(&chars("1 2 1 1e-11 x 3e-11"), &p, &temps) {
        Err(LAMDAError::ParseFloat(Field::Rate, FloatErrorKind::Invalid)) => {}
        other => panic!("unexpected {:?}", other),
    }
}

#[test]
fn bad_temperature_is_float_error() {
    let b = block("1", "1 2 1 1.0 2.0\n", "10 twenty");
    let text = with_partners("1", &[&b]);
    match LAMDAData::parse(&text) {
        Err(LAMDAError::ParseFloat(Field::Temperature, FloatErrorKind::Invalid)) => {}
        other => panic!("unexpected {:?}", other),
    }
}

#[test]
fn missing_collision_rows_end_of_input() {
    let b = block("1", "1 2 1 1.0 2.0\n", "10 20").replace("COLL TRANS\n1\n", "COLL TRANS\n2\n");
    let text = with_partners("1", &[&b]);
    match LAMDAData::parse(&text) {
        Err(LAMDAError::ParseError(ParseFault::UnexpectedEof(Field::CollId))) => {}
        other => panic!("unexpected {:?}", other),
    }
}

#[test]
fn reader_may_start_mid_text() {
    let text = format!("preamble line\n{}!PARTNERS\n0\n", minimal());
    let mut reader = LineReader::new(&text);
    assert_eq!(reader.next_line().as_deref(), Some("preamble line"));
    let d = LAMDAData::from_reader(reader).unwrap();
    assert_eq!(d.levels.len(), 2);
}

#[test]
fn strict_mode_requires_j() {
    let text = with_partners("0", &[]).replace("1 0.0 1.0 0\n", "1 0.0 1.0\n");
    assert!(LAMDAData::parse(&text).is_ok());
    match LAMDAData::from_reader_with(LineReader::new(&text), JColumn::Required) {
        Err(LAMDAError::ParseError(ParseFault::MissingField(Field::LevelJ))) => {}
        other => panic!("unexpected {:?}", other),
    }
}

#[test]
fn crlf_lines_are_read() {
    let text = with_partners("0", &[]).replace('\n', "\r\n");
    let d = LAMDAData::parse(&text).unwrap();
    assert_eq!(d.name, "CO");
    assert_eq!(d.radset[0].energy, "5.53");
}
