use boolfn::check::check_dnf;
use boolfn::check::check_knf;
use boolfn::synth::get_fdnf;
use boolfn::synth::get_fknf;
use boolfn::table::BooleanFunction;
use boolfn::table::BooleanFunctionIterator;

#[test]
fn construct_valid_lengths() {
    for (bits, arity) in [
        ("10", 1),
        ("0001", 2),
        ("00010111", 3),
        ("0101010101010101", 4),
    ] {
        let f = BooleanFunction::from(bits).unwrap();
        assert_eq!(f.get_count_args(), arity);
        assert_eq!(f.get_func().as_str(), bits);
    }
}

#[test]
fn construct_invalid_value() {
    let e = BooleanFunction::from("10a1").unwrap_err();
    assert_eq!(e, "Invalid function value. Function must be consist by 0 or 1.");
    let e = BooleanFunction::from("2111").unwrap_err();
    assert_eq!(e, "Invalid function value. Function must be consist by 0 or 1.");
}

#[test]
fn construct_invalid_length() {
    for bits in ["", "1", "0", "101", "101010", "1010101010"] {
        let e = BooleanFunction::from(bits).unwrap_err();
        assert_eq!(e, "Invalid function length. Function length must be a power of two.");
    }
}

#[test]
fn enumerator_outputs_match_bool_vector() {
    let f = BooleanFunction::from("10100011").unwrap();
    let expected = f.as_vec_bool();
    let mut it = BooleanFunctionIterator::new(&f);
    let mut seen = Vec::new();
    while let Some((vc, out)) = it.next() {
        assert_eq!(vc.len(), 3);
        seen.push(out);
    }
    assert_eq!(seen, expected);
    assert_eq!(
        expected,
        vec![true, false, true, false, false, false, true, true]
    );
}

#[test]
fn enumerator_assignments_are_big_endian() {
    let f = BooleanFunction::from("0001").unwrap();
    let mut it = BooleanFunctionIterator::new(&f);
    assert_eq!(it.next(), Some((vec![false, false], false)));
    assert_eq!(it.next(), Some((vec![false, true], false)));
    assert_eq!(it.next(), Some((vec![true, false], false)));
    assert_eq!(it.next(), Some((vec![true, true], true)));
    assert_eq!(it.next(), None);
    assert_eq!(it.next(), None);
}

#[test]
fn restriction_splits_the_table() {
    let f = BooleanFunction::from("00010111").unwrap();
    // argument 0 is x3, the least significant row bit
    assert_eq!(f.remainde_boolean_function(0, false).unwrap(), "0001");
    assert_eq!(f.remainde_boolean_function(0, true).unwrap(), "0111");
    // argument 2 is x1, the most significant row bit
    assert_eq!(f.remainde_boolean_function(2, false).unwrap(), "0001");
    assert_eq!(f.remainde_boolean_function(2, true).unwrap(), "0111");
    // argument 1 is x2
    assert_eq!(f.remainde_boolean_function(1, false).unwrap(), "0001");
    assert_eq!(f.remainde_boolean_function(1, true).unwrap(), "0111");
    let e = f.remainde_boolean_function(3, true).unwrap_err();
    assert_eq!(e, "Argument number greater than maximum.");
    let e = f.remainde_boolean_function(-1, false).unwrap_err();
    assert_eq!(e, "Argument number greater than maximum.");
}

#[test]
fn full_dnf_exact_text() {
    let f = BooleanFunction::from("0001").unwrap();
    assert_eq!(get_fdnf(&f), "(x1&x2)");
    let f = BooleanFunction::from("00010111").unwrap();
    assert_eq!(
        get_fdnf(&f),
        "(-x1&x2&x3)v\n(x1&-x2&x3)v\n(x1&x2&-x3)v\n(x1&x2&x3)"
    );
}

#[test]
fn full_knf_exact_text() {
    let f = BooleanFunction::from("01").unwrap();
    assert_eq!(get_fknf(&f), "(x1)");
    assert_eq!(get_fdnf(&f), "(x1)");
    let f = BooleanFunction::from("1110").unwrap();
    assert_eq!(get_fknf(&f), "(-x1v-x2)");
}

#[test]
fn degenerate_forms_are_empty() {
    let constant_zero = BooleanFunction::from("00").unwrap();
    assert_eq!(get_fdnf(&constant_zero), "");
    assert!(check_dnf(constant_zero, "").is_err());
    let constant_one = BooleanFunction::from("1111").unwrap();
    assert_eq!(get_fknf(&constant_one), "");
    assert!(check_knf(constant_one, "").is_err());
}

#[test]
fn not_normal_form_messages() {
    let f = BooleanFunction::from("00010111").unwrap();
    let e = check_dnf(f.clone(), "(x1 v x2)&x3").unwrap_err();
    assert_eq!(e, "This is not DNF");
    let e = check_knf(f, "x1&x2 v x3").unwrap_err();
    assert_eq!(e, "This is not KNF");
}

#[test]
fn parse_errors_are_reported() {
    let f = BooleanFunction::from("00010111").unwrap();
    assert!(check_dnf(f.clone(), "x1 &").is_err());
    assert!(check_dnf(f.clone(), "(x1&x2").is_err());
    assert!(check_dnf(f.clone(), "x").is_err());
    assert!(check_dnf(f.clone(), "y1").is_err());
    assert!(check_dnf(f, "x1 x2").is_err());
}

#[test]
fn unknown_variable_names_are_reported_verbatim() {
    let f = BooleanFunction::from("00010111").unwrap();
    let e = check_dnf(f.clone(), "x0 v x1").unwrap_err();
    assert!(e.contains("x0"));
    let e = check_dnf(f.clone(), "x01&x2").unwrap_err();
    assert!(e.contains("x01"));
    let e = check_dnf(f, "x1 v x4").unwrap_err();
    assert!(e.contains("x4"));
}

#[test]
fn equivalence_is_semantic_not_structural() {
    let f = BooleanFunction::from("10110011").unwrap();
    // a doubled, non-canonical but equivalent DNF
    let r = check_dnf(f.clone(), "x2 v x2 v -x1&-x3").unwrap();
    assert_eq!(r, true);
    // an inequivalent DNF
    let r = check_dnf(f, "x2").unwrap();
    assert_eq!(r, false);
}

#[test]
fn random_draws_stay_inside_the_range() {
    for _ in 0..100 {
        let r = boolfn::table::get_random(2);
        assert!(r == 0 || r == 1);
    }
    // a range of one value leaves no choice
    for _ in 0..10 {
        assert_eq!(boolfn::table::get_random(1), 0);
    }
}

#[test]
fn random_functions_verify_their_canonical_forms() {
    for n in 1..=10 {
        let f = BooleanFunction::with_count_args(n);
        assert_eq!(f.get_count_args(), n);
        let dnf = get_fdnf(&f);
        if f.get_func().contains('1') {
            assert_eq!(check_dnf(f.clone(), &dnf).unwrap(), true);
        } else {
            assert!(dnf.is_empty());
            assert!(check_dnf(f.clone(), &dnf).is_err());
        }
        let knf = get_fknf(&f);
        if f.get_func().contains('0') {
            assert_eq!(check_knf(f, &knf).unwrap(), true);
        } else {
            assert!(knf.is_empty());
            assert!(check_knf(f, &knf).is_err());
        }
    }
}
