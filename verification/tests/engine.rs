use boolfn::check::check_dnf;
use boolfn::check::check_knf;
use boolfn::synth::get_fdnf;
use boolfn::synth::get_fknf;
use boolfn::table::BooleanFunction;
use boolfn::table::BooleanFunctionIterator;
use boolfn::table::get_random;

#[test]
fn test_dnf() {
    let func_vector = "00010111";
    let func = BooleanFunction::from(func_vector).unwrap();
    let r = check_dnf(func.clone(), "-x1&x2&x3 v x1&-x2&x3 v x1&x2&-x3 v x1&x2&x3").unwrap();

    assert_eq!(r, true);

    let r = check_dnf(func, "-x1&x2&x3 v x1&-x2&x3 v x1&x2&-x3 v x1&x2&-x3").unwrap();

    assert_eq!(r, false);
}

#[test]
fn test_knf() {
    let func_vector = "00010111";
    let func = BooleanFunction::from(func_vector).unwrap();
    let r = check_knf(
        func.clone(),
        " (x1 v x2 v x3) & (x1 v x2 v -x3) & ( x1 v -x2 v x3 ) & ( -x1 v x2 v x3 ) ",
    )
    .unwrap();

    assert_eq!(r, true);

    let r = check_knf(
        func,
        " (x1 v x2 v x3) & (x1 v x2 v -x3) & ( x1 v -x2 v -x3 ) & ( -x1 v x2 v x3 ) ",
    )
    .unwrap();

    assert_eq!(r, false);
}

#[test]
fn test_sim_dnf() {
    let func = "10110011";
    let func = BooleanFunction::from(func).unwrap();

    let r = check_dnf(func, "x2 v -x1&-x3").unwrap();

    assert_eq!(r, true);
}

#[test]
fn test_not_expected_variable() {
    let func = "10110011";
    let func = BooleanFunction::from(func).unwrap();

    let Err(err) = check_dnf(func, "x2 v -x1&-x3 v x10") else {
        panic!("expected error!");
    };
    assert_eq!(err.contains("x10"), true);
}

#[test]
fn test_fdnf() {
    let func = BooleanFunction::from("00010111").unwrap();
    let expr = get_fdnf(&func);

    let r = check_dnf(func, &expr).unwrap();

    assert_eq!(r, true);
}

#[test]
fn test_fknf() {
    let func = BooleanFunction::from("00010111").unwrap();
    let expr = get_fknf(&func);

    let r = check_knf(func, &expr).unwrap();

    assert_eq!(r, true);
}

#[test]
fn test_random() {
    let func = BooleanFunction::with_count_args(4);
    let expr = get_fdnf(&func);

    let r = check_dnf(func, &expr).unwrap();
    assert_eq!(r, true);

    let func = BooleanFunction::with_count_args(4);
    let expr = get_fknf(&func);

    let r = check_knf(func, &expr).unwrap();
    assert_eq!(r, true);
}

#[test]
fn test_random_func() {
    let mut ok = true;
    for _ in 1..50 {
        let random_number = get_random(5);
        ok &= random_number >= 0 && random_number <= 5;
    }
    assert_eq!(ok, true);
}

#[test]
#[should_panic]
fn check_struct_panic_value() {
    BooleanFunction::from("abc").unwrap();
}

#[test]
#[should_panic]
fn check_struct_panic_length() {
    BooleanFunction::from("1010101010").unwrap();
}

#[test]
fn check_create_struct() {
    let r = BooleanFunction::from("10").unwrap();
    println!("{}", r.get_count_args());
}

#[test]
fn test_iterator() {
    let func = "10100011";
    let ff = BooleanFunction::from(func).unwrap();

    let mut it = BooleanFunctionIterator::new(&ff);

    while let Some(i) = it.next() {
        println!("{:?}", i);
    }
}
