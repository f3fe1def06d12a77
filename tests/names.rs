use nomenclature::{Alkyls, Base, Compound, Function};

#[test]
fn all() {
    assert!(Compound::is_name("1-methylpropane"));
    assert!(Compound::is_name("1,5-diethyloctan-2-ol"));
    assert!(Compound::is_name("1-ethyl-2,5-methylethano\u{ef}que"));
}

#[test]
fn alkane() {
    assert!(Compound::is_parent_chain("methane"));
    assert!(Compound::is_parent_chain("ethan-2-ol"));
    assert!(Compound::is_parent_chain("pentano\u{ef}que"));
}

#[test]
fn alkyls() {
    assert!(Alkyls::is_list("1-methyl"));
    assert!(Alkyls::is_list("1,5-dipentyl"));
    assert!(Alkyls::is_list("1,5-dipentyl-5,1,1-triethyl"));
}

#[test]
fn single_alkyls() {
    assert!(Alkyls::is_single("1-methyl"));
    assert!(Alkyls::is_single("1,5-dipentyl"));
}

#[test]
fn rejects_text_outside_the_grammar() {
    for s in [
        "",
        "propane-",
        "1-methylpropanex",
        "1-methylprop",
        "1-methyl",
        "1-methylpropan",
        "propan-2-",
        "propan-2-on",
        "x1-methylpropane",
        "1-methyl-propane",
        "1-methyl--2-ethylpropane",
        "1,-methylpropane",
        "-methylpropane",
        "1-nonylpropane",
        "1-methylnonane",
        "1-methyl:-2-ethylpropane",
        " propane",
    ] {
        assert!(Compound::parse(s).is_none(), "{s}");
        assert!(!Compound::is_name(s), "{s}");
    }
}

#[test]
fn locant_is_mandatory() {
    assert!(Compound::parse("methylpropane").is_none());
}

#[test]
fn methylpropane() {
    let c = Compound::parse("1-methylpropane").unwrap();
    assert_eq!(c.alkane, Base::Propane);
    assert_eq!(c.function, Function::Plain);
    assert_eq!(c.alkyls.0, vec![([Some(1), None, None, None], Base::Methane)]);
}

#[test]
fn diethyloctanol() {
    let c = Compound::parse("1,5-diethyloctan-2-ol").unwrap();
    assert_eq!(c.alkane, Base::Octane);
    assert_eq!(c.function, Function::Alcohol { n: 2 });
    assert_eq!(c.alkyls.0, vec![([Some(1), Some(5), None, None], Base::Ethane)]);
}

#[test]
fn substituents_keep_their_order() {
    let c = Compound::parse("1-ethyl-2,5-methylethano\u{ef}que").unwrap();
    assert_eq!(c.alkane, Base::Ethane);
    assert_eq!(c.function, Function::Carboxylic);
    assert_eq!(
        c.alkyls.0,
        vec![
            ([Some(1), None, None, None], Base::Ethane),
            ([Some(2), Some(5), None, None], Base::Methane),
        ]
    );
}

#[test]
fn parsing_twice_gives_equal_results() {
    for s in ["1-methylpropane", "1,5-diethyloctan-2-ol", "2-methylbutanal", "nope"] {
        assert_eq!(Compound::parse(s), Compound::parse(s));
    }
}

#[test]
fn upper_case_reads_the_same() {
    for s in [
        "1-methylpropane",
        "1,5-diethyloctan-2-ol",
        "1-ethyl-2,5-methylethano\u{ef}que",
        "3-propylheptan-4-one",
        "hexanal",
    ] {
        let up = s.to_uppercase();
        assert!(Compound::parse(s).is_some());
        assert_eq!(Compound::parse(&up), Compound::parse(s));
    }
    assert_eq!(
        Compound::parse("PENTANO\u{cf}QUE").unwrap().function,
        Function::Carboxylic
    );
}

#[test]
fn fifth_locant_is_dropped() {
    let c = Compound::parse("1,2,3,4,5-methylhexane").unwrap();
    assert_eq!(c.alkyls.len(), 1);
    assert_eq!(c.alkyls.0[0].0, [Some(1), Some(2), Some(3), Some(4)]);
    assert!(!c.alkyls.0[0].0.contains(&Some(5)));
}

#[test]
fn every_chain_and_ending() {
    let chains = [
        ("meth", Base::Methane),
        ("eth", Base::Ethane),
        ("prop", Base::Propane),
        ("but", Base::Butane),
        ("pent", Base::Pentane),
        ("hex", Base::Hexane),
        ("hept", Base::Heptane),
        ("oct", Base::Octane),
    ];
    for (p, b) in chains {
        let c = Compound::parse(&format!("{p}ane")).unwrap();
        assert_eq!(c.alkane, b);
        assert!(c.alkyls.0.is_empty());
        assert_eq!(Base::from_str(p), b);
    }
    assert_eq!(Compound::parse("butanal").unwrap().function, Function::Aldehyde);
    assert_eq!(
        Compound::parse("hexan-3-one").unwrap().function,
        Function::Ketones { n: 3 }
    );
    assert_eq!(
        Compound::parse("heptan-007-ol").unwrap().function,
        Function::Alcohol { n: 7 }
    );
}

#[test]
fn multiplicity_prefixes() {
    let c = Compound::parse("2,3,4,5-tetramethyl-1-dipropyl-6-tributyloctane").unwrap();
    assert_eq!(
        c.alkyls.0,
        vec![
            ([Some(2), Some(3), Some(4), Some(5)], Base::Methane),
            ([Some(1), None, None, None], Base::Propane),
            ([Some(6), None, None, None], Base::Butane),
        ]
    );
}

#[test]
fn locants_must_fit_in_a_byte() {
    assert_eq!(
        Compound::parse("255-methylpropane").unwrap().alkyls.0[0].0,
        [Some(255), None, None, None]
    );
    assert!(Compound::parse("256-methylpropane").is_none());
    assert!(Compound::parse("propan-300-ol").is_none());
    assert!(Compound::parse("1,2,3,4,999-methylpropane").is_none());
}

#[test]
fn decoders_on_raw_text() {
    assert_eq!(Base::from_str("HEPT"), Base::Heptane);
    assert_eq!(Base::from_str("dec"), Base::Unknown);
    assert_eq!(Base::from_str("methyl"), Base::Unknown);
    assert_eq!(Function::from_str("e"), Function::Plain);
    assert_eq!(Function::from_str("o\u{ef}que"), Function::Carboxylic);
    assert_eq!(Function::from_str("al"), Function::Aldehyde);
    assert_eq!(Function::from_str("-4-one"), Function::Ketones { n: 4 });
    assert_eq!(Function::from_str("-12-OL"), Function::Alcohol { n: 12 });
    assert_eq!(Function::from_str("-4-ane"), Function::Plain);
    let a = Alkyls::from_str("1,5-dipentyl-5,1,1-triethyl");
    assert_eq!(
        a.0,
        vec![
            ([Some(1), Some(5), None, None], Base::Pentane),
            ([Some(5), Some(1), Some(1), None], Base::Ethane),
        ]
    );
    assert!(Alkyls::from_str("").0.is_empty());
    assert!(Alkyls::from_str("1-methylx").0.is_empty());
    assert!(!Alkyls::is_single("1-methyl-2-ethyl"));
    assert!(!Compound::is_parent_chain("1-methylpropane"));
}

#[test]
fn agrees_with_the_regular_expression() {
    let base = "(?:meth|eth|prop|but|pent|hex|hept|oct)";
    let single = format!(r"(\d+(?:,\d+)*-(?:di|tri|tetra)?{base}yl)");
    let list = format!(r"({single}(?:-{single})*)");
    let parent = format!(r"({base}an(?:e|o\x{{ef}}que|al|(?:-\d+-(?:one|ol))))");
    let whole = regex::RegexBuilder::new(&format!("^{list}?{parent}$"))
        .case_insensitive(true)
        .build()
        .unwrap();
    let parts = [
        "1", "2", "12", ",", "-", "di", "tri", "tetra", "meth", "eth", "prop", "hex", "hept",
        "yl", "an", "e", "al", "one", "ol", "o\u{ef}que", "O\u{cf}QUE", "ETH", "x",
    ];
    let mut texts: Vec<String> = vec![String::new()];
    for _ in 0..3 {
        let mut next = Vec::new();
        for t in &texts {
            for p in parts {
                next.push(format!("{t}{p}"));
            }
        }
        texts.extend(next);
        texts.sort();
        texts.dedup();
    }
    let names = [
        "1-methylpropane",
        "1,5-diethyloctan-2-ol",
        "1-ethyl-2,5-methylethano\u{ef}que",
        "2-ethyl-3,4-dimethylhexan-2-one",
        "1,2,3,4-tetrapropyl-7-butylheptanal",
    ];
    for name in names {
        let chars: Vec<char> = name.chars().collect();
        for k in 0..=chars.len() {
            let mut cut = chars.clone();
            if k < chars.len() {
                cut.remove(k);
                texts.push(cut.iter().collect());
            }
            for extra in ['1', ',', '-', 'e', 'y', 'l'] {
                let mut grown = chars.clone();
                grown.insert(k, extra);
                texts.push(grown.iter().collect());
            }
        }
    }
    let extra = [
        "1-methylpropane",
        "1,5-diethyloctan-2-ol",
        "1-ethyl-2,5-methylethano\u{ef}que",
        "2-ethyl-3,4-dimethylhexan-2-one",
        "1-methyl-2-ethyl",
    ];
    for t in texts.iter().map(|s| s.as_str()).chain(extra) {
        assert_eq!(Compound::is_name(t), whole.is_match(t), "{t}");
        assert_eq!(Compound::parse(t).is_some(), whole.is_match(t), "{t}");
    }
}
