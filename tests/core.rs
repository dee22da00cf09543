use mcdmrs::cmp::{ge, gt, isclose, le, lt};
use mcdmrs::multicriterion_flow::multicriterion_flow;
use mcdmrs::outranking::{comparable, outranking_adjacency_matrix};
use mcdmrs::pref_functions::{get_pref_function, level, usual, ushape, vshape, vshape2, PrefFunction};
use mcdmrs::unicriterion_flow::{unicriterion_flow, unicriterion_flow_with};
use mcdmrs::{MCDMRSError, ONE};

fn fx(x: f64) -> i64 {
    (x * 1e9).round() as i64
}

fn fxv(v: &[f64]) -> Vec<i64> {
    v.iter().map(|x| fx(*x)).collect()
}

fn fxm(m: &[Vec<f64>]) -> Vec<Vec<i64>> {
    m.iter().map(|r| fxv(r)).collect()
}

fn names(v: &[&str]) -> Vec<String> {
    v.iter().map(|s| s.to_string()).collect()
}

fn near(exp: &[f64], got: &[i64], abs_tol: f64) -> bool {
    exp.len() == got.len()
        && exp.iter().zip(got).all(|(e, g)| (e - (*g as f64) / 1e9).abs() <= abs_tol)
}

const REL_TOL: f64 = 1e-7;

#[test]
fn cmp_test_isclose() {
    assert!(isclose(fx(0.3 - 0.1), fx(0.2)));
    assert!(gt(fx(0.3 + (10.0 * REL_TOL) - 0.1), fx(0.2)));
    assert!(lt(fx(0.3 - (10.0 * REL_TOL) - 0.1), fx(0.2)));
    assert!(ge(fx(0.3 + (10.0 * REL_TOL) - 0.1), fx(0.2)));
    assert!(ge(fx(0.3 - 0.1), fx(0.2)));
    assert!(le(fx(0.3 - (10.0 * REL_TOL) - 0.1), fx(0.2)));
    assert!(le(fx(0.3 - 0.1), fx(0.2)));
}

#[test]
fn pref_functions_test_isclose() {
    assert!(isclose(fx(0.3 - 0.1), fx(0.2)));
    assert!(gt(fx(0.3 + (10.0 * REL_TOL) - 0.1), fx(0.2)));
    assert!(lt(fx(0.3 - (10.0 * REL_TOL) - 0.1), fx(0.2)));
    assert!(ge(fx(0.3 + (10.0 * REL_TOL) - 0.1), fx(0.2)));
    assert!(ge(fx(0.3 - 0.1), fx(0.2)));
    assert!(le(fx(0.3 - (10.0 * REL_TOL) - 0.1), fx(0.2)));
    assert!(le(fx(0.3 - 0.1), fx(0.2)));
}

#[test]
fn tolerance_boundary_is_relative() {
    // 1e-7 of one billion units is exactly 100 units.
    assert!(isclose(1_000_000_000, 1_000_000_100));
    assert!(!isclose(1_000_000_000, 1_000_000_101));
    assert!(!gt(1_000_000_100, 1_000_000_000));
    assert!(gt(1_000_000_101, 1_000_000_000));
    assert!(isclose(0, 0));
    assert!(!isclose(0, 1));
}

#[test]
fn pref_functions_test_func_lookup() {
    for name in ["usual", "ushape", "vshape", "vshape2", "level"] {
        let f = get_pref_function(name).unwrap();
        assert_eq!(f.eval(0, 0, 0), 0);
    }
    assert_eq!(get_pref_function("vshape_2"), Ok(PrefFunction::VShape2));
    assert_eq!(get_pref_function("linear"), Ok(PrefFunction::VShape2));
    assert_eq!(get_pref_function("level"), Ok(PrefFunction::Level));
}

#[test]
fn unknown_pref_function_name_is_an_error() {
    assert_eq!(get_pref_function("panic!"), Err(MCDMRSError::UnknownPreferenceFunction));
    assert_eq!(get_pref_function(""), Err(MCDMRSError::UnknownPreferenceFunction));
    assert_eq!(get_pref_function("Usual"), Err(MCDMRSError::UnknownPreferenceFunction));
}

#[test]
fn usual_and_ushape_cases() {
    assert_eq!(usual(fx(0.0), 0, 0), 0);
    assert_eq!(usual(fx(1.0), 0, 0), ONE);
    assert_eq!(usual(fx(0.5), 0, 0), ONE);
    assert_eq!(usual(fx(-0.5), 0, 0), 0);
    assert_eq!(ushape(fx(-0.5), fx(0.5), 0), 0);
    assert_eq!(ushape(fx(0.0), fx(0.5), 0), 0);
    assert_eq!(ushape(fx(0.51), fx(0.5), 0), ONE);
}

#[test]
fn vshape_vshape2_level_values() {
    // d / p
    assert_eq!(vshape(fx(0.25), 0, fx(1.0)), fx(0.25));
    assert_eq!(vshape(fx(1.5), 0, fx(1.0)), ONE);
    assert_eq!(vshape(fx(-0.2), 0, fx(1.0)), 0);
    // (d - q) / (p - q)
    assert_eq!(vshape2(fx(0.5), fx(0.2), fx(0.8)), fx(0.5));
    assert_eq!(vshape2(fx(0.1), fx(0.2), fx(0.8)), 0);
    assert_eq!(vshape2(fx(0.9), fx(0.2), fx(0.8)), ONE);
    // one half between the thresholds
    assert_eq!(level(fx(0.5), fx(0.2), fx(0.8)), ONE / 2);
    assert_eq!(level(fx(0.9), fx(0.2), fx(0.8)), ONE);
    assert_eq!(level(fx(0.2), fx(0.2), fx(0.8)), 0);
    // a deviation within tolerance above p counts as p
    assert_eq!(vshape(ONE + 50, 0, ONE), ONE);
}

#[test]
fn self_comparison_is_neutral() {
    let shapes = [
        PrefFunction::Usual,
        PrefFunction::UShape,
        PrefFunction::VShape,
        PrefFunction::VShape2,
        PrefFunction::Level,
    ];
    for f in shapes {
        assert_eq!(f.eval(0, fx(0.1), fx(0.5)), 0);
        assert_eq!(f.eval(0, 0, fx(0.5)), 0);
    }
}

#[test]
fn unicriterion_flow_test_ushape() {
    let (ep, em) = (vec![0.5, 0., 0.], vec![0., 0.5, 0.]);
    let (pp, pm) = unicriterion_flow(&fxv(&[0.8, 0.2, 0.5]), "ushape", fx(0.4), fx(0.8)).unwrap();
    assert!(near(&ep, &pp, 1e-9));
    assert!(near(&em, &pm, 1e-9));
    let (pp, pm) = unicriterion_flow(&fxv(&[0.8, 0.2, 0.5]), "ushape", fx(0.4), fx(0.8)).unwrap();
    assert!(near(&ep, &pp, 1e-9));
    assert!(near(&em, &pm, 1e-9));
}

#[test]
fn unicriterion_usual_cases() {
    let (pl, mi) = unicriterion_flow(&fxv(&[0.8, 0.2, 0.5]), "usual", 0, 0).unwrap();
    assert_eq!(pl, vec![ONE, 0, ONE / 2]);
    assert_eq!(mi, vec![0, ONE, ONE / 2]);
    let (pl, mi) = unicriterion_flow(&fxv(&[1., 1., 1.]), "usual", 0, 0).unwrap();
    assert_eq!(pl, vec![0, 0, 0]);
    assert_eq!(mi, vec![0, 0, 0]);
    let (pl, mi) = unicriterion_flow(&fxv(&[0., 0., 0.]), "usual", 0, 0).unwrap();
    assert_eq!(pl, vec![0, 0, 0]);
    assert_eq!(mi, vec![0, 0, 0]);
}

#[test]
fn constant_column_has_zero_flow_for_every_shape() {
    let v = fxv(&[3.5, 3.5, 3.5, 3.5]);
    for f in [PrefFunction::Usual, PrefFunction::UShape, PrefFunction::VShape, PrefFunction::VShape2, PrefFunction::Level] {
        let (pl, mi) = unicriterion_flow_with(&v, f, fx(0.1), fx(0.6)).unwrap();
        assert_eq!(pl, vec![0, 0, 0, 0]);
        assert_eq!(mi, vec![0, 0, 0, 0]);
    }
}

#[test]
fn unicriterion_degenerate_inputs() {
    assert_eq!(unicriterion_flow(&fxv(&[0.8]), "usual", 0, 0), Err(MCDMRSError::DegenerateInput));
    assert_eq!(unicriterion_flow(&vec![], "usual", 0, 0), Err(MCDMRSError::DegenerateInput));
    assert_eq!(unicriterion_flow(&fxv(&[0.8, 0.2]), "vshape", 0, 0), Err(MCDMRSError::DegenerateInput));
    assert_eq!(unicriterion_flow(&fxv(&[0.8, 0.2]), "vshape2", fx(0.5), fx(0.5)), Err(MCDMRSError::DegenerateInput));
    assert_eq!(unicriterion_flow(&fxv(&[0.8, 0.2]), "nope", 0, 0), Err(MCDMRSError::UnknownPreferenceFunction));
    // level does not divide: p <= q is accepted
    assert!(unicriterion_flow(&fxv(&[0.8, 0.2]), "level", fx(0.5), fx(0.1)).is_ok());
}

fn assert_mc_flows(matrix: &[Vec<f64>], funcs: &[&str], q: &[f64], p: &[f64], exp_plus: &[Vec<f64>], exp_minus: &[Vec<f64>], tol: f64) {
    let res = multicriterion_flow(&fxm(matrix), &names(funcs), &fxv(q), &fxv(p)).unwrap();
    assert_eq!(res.pref_matrix_plus_t.len(), exp_plus.len());
    for (i, exp) in exp_plus.iter().enumerate() {
        assert!(near(exp, &res.pref_matrix_plus_t[i], tol), "plus {:?} {:?}", exp, res.pref_matrix_plus_t[i]);
    }
    for (i, exp) in exp_minus.iter().enumerate() {
        assert!(near(exp, &res.pref_matrix_minus_t[i], tol), "minus {:?} {:?}", exp, res.pref_matrix_minus_t[i]);
    }
}

#[test]
fn multicriterion_scenario_usual_same_rows() {
    assert_mc_flows(
        &[vec![0.8, 0.2, 0.5], vec![0.8, 0.2, 0.5]],
        &["usual", "usual"],
        &[0., 0.],
        &[0., 0.],
        &[vec![1., 0., 0.5], vec![1., 0., 0.5]],
        &[vec![0., 1., 0.5], vec![0., 1., 0.5]],
        1e-9,
    );
}

#[test]
fn multicriterion_constant_rows() {
    assert_mc_flows(
        &[vec![1., 1., 1.], vec![1., 1., 1.]],
        &["usual", "usual"],
        &[0., 0.],
        &[0., 0.],
        &[vec![0., 0., 0.], vec![0., 0., 0.]],
        &[vec![0., 0., 0.], vec![0., 0., 0.]],
        1e-9,
    );
}

#[test]
fn multicriterion_usual_distinct_rows() {
    assert_mc_flows(
        &[vec![0.8, 0.2, 0.5], vec![0.5, 0.8, 0.2]],
        &["usual", "usual"],
        &[0., 0.],
        &[0., 0.],
        &[vec![1., 0., 0.5], vec![0.5, 1., 0.]],
        &[vec![0., 1., 0.5], vec![0.5, 0., 1.]],
        1e-9,
    );
}

#[test]
fn multicriterion_scenario_mixed_shapes() {
    assert_mc_flows(
        &[vec![0.8, 0.2, 0.5], vec![0.8, 0.2, 0.5]],
        &["usual", "vshape2"],
        &[0.01, 0.2],
        &[0.1, 0.9],
        &[vec![1., 0., 0.5], vec![0.35714287, 0., 0.07142857]],
        &[vec![0., 1., 0.5], vec![0., 0.35714287, 0.07142857]],
        1e-3,
    );
}

#[test]
fn multicriterion_each_shape() {
    let m = [vec![0.8, 0.2, 0.05], vec![0.1, 0.6, 0.4]];
    let (q, p) = ([0.01, 0.2], [0.1, 0.9]);
    assert_mc_flows(&m, &["usual", "usual"], &q, &p,
        &[vec![1., 0.5, 0.], vec![0., 1., 0.5]],
        &[vec![0., 0.5, 1.], vec![1., 0., 0.5]], 1e-3);
    assert_mc_flows(&m, &["ushape", "ushape"], &q, &p,
        &[vec![1., 0.5, 0.], vec![0., 0.5, 0.5]],
        &[vec![0., 0.5, 1.], vec![1., 0., 0.]], 1e-3);
    assert_mc_flows(&m, &["vshape", "vshape"], &q, &p,
        &[vec![1., 0.5, 0.], vec![0., 0.3888889, 0.16666667]],
        &[vec![0., 0.5, 1.], vec![0.44444448, 0., 0.11111111]], 1e-3);
    assert_mc_flows(&m, &["vshape2", "vshape2"], &q, &p,
        &[vec![1., 0.5, 0.], vec![0., 0.21428575, 0.07142858]],
        &[vec![0., 0.5, 1.], vec![0.28571433, 0.0, 0.]], 1e-3);
    assert_mc_flows(&m, &["level", "level"], &q, &p,
        &[vec![1., 0.5, 0.], vec![0., 0.25, 0.25]],
        &[vec![0., 0.5, 1.], vec![0.5, 0., 0.]], 1e-3);
}

#[test]
fn multicriterion_unknown_name() {
    let r = multicriterion_flow(
        &fxm(&[vec![0.8, 0.2, 0.5], vec![0.5, 0.8, 0.2]]),
        &names(&["usual", "panic!"]),
        &fxv(&[0., 0.]),
        &fxv(&[0., 0.]),
    );
    assert_eq!(r.unwrap_err(), MCDMRSError::UnknownPreferenceFunction);
}

#[test]
fn multicriterion_input_length() {
    let r = multicriterion_flow(
        &fxm(&[vec![0.0; 3], vec![0.0; 3], vec![0.0; 3]]),
        &names(&["usual", "usual"]),
        &fxv(&[0., 0.]),
        &fxv(&[0., 0.]),
    );
    assert_eq!(r.unwrap_err(), MCDMRSError::DimensionMismatch);
    let ragged = multicriterion_flow(
        &fxm(&[vec![0.0; 3], vec![0.0; 2]]),
        &names(&["usual", "usual"]),
        &fxv(&[0., 0.]),
        &fxv(&[0., 0.]),
    );
    assert_eq!(ragged.unwrap_err(), MCDMRSError::DimensionMismatch);
}

#[test]
fn test_incomparable() {
    let inputs: [[[f64; 2]; 2]; 3] = [
        [[1., 1.], [0., 0.]],
        [[0., 0.], [1., 1.]],
        [[7., 7.], [3., 3.]],
    ];
    for case in inputs {
        let a = case[0];
        let b = case[1];
        let (ap, am, bp, bm) = (fx(a[0]), fx(a[1]), fx(b[0]), fx(b[1]));
        assert!(!comparable(ap, am, bp, bm));
        assert!(!comparable(bp, bm, ap, am));
    }
}

#[test]
fn comparability_is_symmetric() {
    let vals = [0, 1, fx(0.3), fx(0.3) + 10, fx(0.25), -fx(0.4)];
    for ap in vals {
        for am in vals {
            for bp in vals {
                for bm in vals {
                    assert_eq!(comparable(ap, am, bp, bm), comparable(bp, bm, ap, am));
                }
            }
        }
    }
}

#[test]
fn test_outranking_adjacency() {
    let arr = [
        [0.3573, 0.1],
        [0.276, 0.2213],
        [0.206, 0.1927],
        [0.256, 0.2573],
        [0.2647, 0.422],
        [0.228, 0.3947],
    ];
    let plus: Vec<i64> = arr.iter().map(|r| fx(r[0])).collect();
    let minus: Vec<i64> = arr.iter().map(|r| fx(r[1])).collect();
    let exp = [
        [0, 1, 1, 1, 1, 1],
        [0, 0, 0, 1, 1, 1],
        [0, 0, 0, 0, 0, 0],
        [0, 0, 0, 0, 0, 1],
        [0, 0, 0, 0, 0, 0],
        [0, 0, 0, 0, 0, 0],
    ];
    let adj = outranking_adjacency_matrix(&plus, &minus).unwrap();
    let flat: Vec<f64> = adj.iter().flatten().map(|b| if *b { 1.0 } else { 0.0 }).collect();
    let exp: Vec<f64> = exp.iter().flatten().map(|x| *x as f64).collect();
    assert_eq!(flat, exp);
}

#[test]
fn outranking_length_mismatch() {
    assert_eq!(outranking_adjacency_matrix(&vec![1, 2], &vec![1]), Err(MCDMRSError::DimensionMismatch));
    assert_eq!(outranking_adjacency_matrix(&vec![], &vec![]), Ok(vec![]));
}

#[test]
fn error_messages() {
    assert!(MCDMRSError::DimensionMismatch.message().contains("same length"));
    assert!(MCDMRSError::UnknownPreferenceFunction.message().contains("preference function"));
}
