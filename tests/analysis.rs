use mcdmrs::math::{apply_weights, diff, min_max_norm, mult_axis_0, normalize_vec, sum_axis_0, transpose};
use mcdmrs::promethee::{Criteria, Prom};
use mcdmrs::utils::{generate_prom, RANDOM_VALUE_MAX};
use mcdmrs::{MCDMRSError, ONE};

fn to_fixed(x: f64) -> i64 {
    (x * 1e9).round() as i64
}

fn to_fixed_vec(v: &[f64]) -> Vec<i64> {
    v.iter().map(|x| to_fixed(*x)).collect()
}

fn to_fixed_mat(m: &[Vec<f64>]) -> Vec<Vec<i64>> {
    m.iter().map(|r| to_fixed_vec(r)).collect()
}

fn all_close_abs(exp: &[f64], got: &[i64], abs_tol: f64) -> bool {
    exp.len() == got.len()
        && exp.iter().zip(got).all(|(e, g)| (e - (*g as f64) / 1e9).abs() <= abs_tol)
}

fn all_close_rel(exp: &[f64], got: &[i64], rel_tol: f64) -> bool {
    exp.len() == got.len()
        && exp.iter().zip(got).all(|(e, g)| {
            let g = (*g as f64) / 1e9;
            (e - g).abs() <= rel_tol * e.abs().max(g.abs())
        })
}

fn usual_criteria(weight: &[f64], direction: &[f64]) -> Criteria {
    let n = weight.len();
    Criteria::new(
        to_fixed_vec(weight),
        to_fixed_vec(direction),
        vec!["usual".to_string(); n],
        vec![0; n],
        vec![0; n],
    )
    .unwrap()
}

#[test]
fn math_test_diff() {
    let v = to_fixed_vec(&[1., 0.0, 2.0]);
    assert_eq!(0i64, diff(&v, &v).iter().sum::<i64>());
}

#[test]
fn matrix_test_diff() {
    let v = to_fixed_vec(&[1., 0.0, 2.0]);
    assert_eq!(0i64, diff(&v, &v).iter().sum::<i64>());
    assert_eq!(diff(&vec![5, 7, 9], &vec![1, 2]), vec![4, 5]);
}

#[test]
fn math_test_sum_axis_0() {
    let v = to_fixed_mat(&[vec![0., 1.], vec![1., 1.], vec![2., 1.], vec![3., 1.], vec![4., 1.]]);
    assert_eq!(to_fixed_vec(&[1.0, 2., 3., 4., 5.]), sum_axis_0(&v));
}

#[test]
fn matrix_test_sum_axis_0() {
    let v = to_fixed_mat(&[vec![0., 1.], vec![1., 1.], vec![2., 1.], vec![3., 1.], vec![4., 1.]]);
    assert_eq!(to_fixed_vec(&[1.0, 2., 3., 4., 5.]), sum_axis_0(&v));
}

#[test]
fn test_transpose() {
    let mat = to_fixed_mat(&[vec![0., 1., 0.5], vec![1., 0., 0.5]]);
    let exp = to_fixed_mat(&[vec![0.0, 1.0], vec![1.0, 0.0], vec![0.5, 0.5]]);
    assert_eq!(exp, transpose(mat));
    assert_eq!(transpose(vec![vec!['a', 'b'], vec!['c', 'd', 'e']]), vec![vec!['a', 'c'], vec!['b', 'd']]);
}

#[test]
fn math_test_apply_weights() {
    let mat = to_fixed_mat(&[vec![0., 1., 0.5], vec![1., 0., 0.5]]);
    let weights = to_fixed_vec(&[1., 2.]);
    let new_mat = mult_axis_0(&mat, &weights).unwrap();
    assert_eq!(to_fixed_mat(&[vec![0.0, 1.0, 0.5], vec![2.0, 0.0, 1.0]]), new_mat);
}

#[test]
fn prom_test_apply_weights() {
    let mat = to_fixed_mat(&[vec![0., 1., 0.5], vec![1., 0., 0.5]]);
    let weights = to_fixed_vec(&[1., 2.]);
    let new_mat = apply_weights(&mat, &weights);
    assert_eq!(to_fixed_mat(&[vec![0.0, 1.0, 0.5], vec![2.0, 0.0, 1.0]]), new_mat);
    assert_eq!(mult_axis_0(&mat, &to_fixed_vec(&[1.])), Err(MCDMRSError::DimensionMismatch));
}

fn normalize_cases() {
    let one: i64 = ONE;
    let v = to_fixed_vec(&[1., 0.0, 2.0]);
    assert_eq!(to_fixed_vec(&[1. / 3., 0.0, 2. / 3.]), normalize_vec(&v));
    assert_eq!(one, normalize_vec(&v).iter().sum::<i64>());

    let v = to_fixed_vec(&[0., 0.0, 0.0]);
    assert_eq!(v, normalize_vec(&v));

    let v = to_fixed_vec(&[0., 0.0, 1.]);
    assert_eq!(v, normalize_vec(&v));
    assert_eq!(one, normalize_vec(&v).iter().sum::<i64>());

    let v = to_fixed_vec(&[1. / 3., 0.0, 2. / 3.]);
    assert_eq!(v, normalize_vec(&v));
    assert_eq!(one, normalize_vec(&v).iter().sum::<i64>());

    let v = to_fixed_vec(&[0., 0.0, 0.5]);
    assert_eq!(to_fixed_vec(&[0., 0.0, 1.]), normalize_vec(&v));
    assert_eq!(one, normalize_vec(&v).iter().sum::<i64>());
}

#[test]
fn math_test_normalize_vec() {
    normalize_cases();
}

#[test]
fn matrix_test_normalize_vec() {
    normalize_cases();
}

#[test]
fn normalize_sums_to_one_or_keeps_tiny_weights() {
    let w = to_fixed_vec(&[0.11, 0.157, 0.158, 0.14, 0.061, 0.194, 0.102, 0.078, 0.3]);
    assert_eq!(normalize_vec(&w).iter().sum::<i64>(), ONE);
    let w = vec![3 * ONE, 5 * ONE, 7 * ONE];
    let r = normalize_vec(&w);
    assert_eq!(r, vec![200_000_000, 333_333_333, 466_666_667]);
    // a sum of at most 1e-5 is left alone
    let tiny = vec![4_000, 6_000];
    assert_eq!(normalize_vec(&tiny), tiny);
    let just_above = vec![4_000, 6_001];
    assert_eq!(normalize_vec(&just_above).iter().sum::<i64>(), ONE);
}

#[test]
fn min_max_norm_range() {
    let s = to_fixed_vec(&[-1., 0.5, 0.25, 0.0]);
    let r = min_max_norm(&s);
    assert_eq!(r, vec![0, ONE, 833_333_333, 666_666_666]);
    assert!(r.iter().all(|x| (0..=ONE).contains(x)));
    assert_eq!(min_max_norm(&to_fixed_vec(&[0.3, 0.3, 0.3])), vec![ONE, ONE, ONE]);
    // a range of at most 1e-7 counts as none
    assert_eq!(min_max_norm(&vec![0, 100]), vec![ONE, ONE]);
    assert_eq!(min_max_norm(&vec![0, 101]), vec![0, ONE]);
    assert_eq!(min_max_norm(&vec![]), Vec::<i64>::new());
}

fn simple_prom() -> Prom {
    Prom::new(
        to_fixed_mat(&[vec![0.8, 0.2, 0.05], vec![0.1, 0.6, 0.4]]),
        usual_criteria(&[1., 1.], &[-1., 1.]),
    )
    .unwrap()
}

#[test]
fn promethee_test_prom() {
    let mut p = simple_prom();
    assert!(p.compute_multicriterion_flow().is_ok());
    assert!(p.compute_prom_i().is_ok());
    assert!(p.compute_prom_ii().is_ok());
    let score = p.prom_ii.clone().unwrap().score;
    assert!(all_close_rel(&[-1., 0.5, 0.5], &score, 1e-6));

    assert!(p.re_weight(&to_fixed_vec(&[0.75, 0.25])).is_ok());
    let newscore = p.prom_ii.clone().unwrap().score;
    let old: Vec<f64> = score.iter().map(|x| *x as f64 / 1e9).collect();
    assert!(!all_close_rel(&old, &newscore, 1e-6));
}

#[test]
fn prom_test_prom() {
    let mut p = simple_prom();
    assert!(p.compute_multicriterion_flow().is_ok());
    assert!(p.compute_prom_i().is_ok());
    assert!(p.compute_prom_ii().is_ok());
    assert!(all_close_rel(&[-1., 0.5, 0.5], &p.prom_ii.expect("error getting prom_ii").score, 1e-6));
}

#[test]
fn prom_ii_details() {
    let mut p = simple_prom();
    assert_eq!(p.get_score(), vec![0, 0, 0]);
    p.compute_prom_ii().unwrap();
    let ii = p.prom_ii.clone().unwrap();
    assert_eq!(ii.score, to_fixed_vec(&[-1., 0.5, 0.5]));
    assert_eq!(ii.normalized_score, to_fixed_vec(&[0., 1., 1.]));
    assert_eq!(ii.weighted_flow, to_fixed_mat(&[vec![-0.5, -0.5], vec![0.0, 0.5], vec![0.5, 0.0]]));
    let i = p.prom_i.clone().unwrap();
    assert_eq!(i.phi_plus_score, to_fixed_vec(&[0., 0.75, 0.75]));
    assert_eq!(i.phi_minus_score, to_fixed_vec(&[1., 0.25, 0.25]));
    assert_eq!(p.get_score(), ii.score);
}

#[test]
fn re_weight_keeps_flows() {
    let mut p = simple_prom();
    p.compute_prom_ii().unwrap();
    let flow = p.mc_flow.clone().unwrap();
    let score = p.get_score();
    p.re_weight(&to_fixed_vec(&[0.75, 0.25])).unwrap();
    let after = p.mc_flow.clone().unwrap();
    assert_eq!(flow.pref_matrix_plus_t, after.pref_matrix_plus_t);
    assert_eq!(flow.pref_matrix_minus_t, after.pref_matrix_minus_t);
    assert_ne!(score, p.get_score());
    assert_eq!(p.criteria.weight, to_fixed_vec(&[0.75, 0.25]));
}

#[test]
fn re_weight_rejections_leave_state() {
    let mut p = simple_prom();
    p.compute_prom_ii().unwrap();
    let score = p.get_score();
    assert_eq!(p.re_weight(&to_fixed_vec(&[1.0])), Err(MCDMRSError::DimensionMismatch));
    assert_eq!(p.re_weight(&to_fixed_vec(&[1.0, -1.0])), Err(MCDMRSError::OutOfRange));
    assert_eq!(p.get_score(), score);
    assert_eq!(p.criteria.weight, to_fixed_vec(&[1., 1.]));
}

#[test]
fn criteria_length_mismatch_rejected() {
    let r = Criteria::new(vec![ONE, ONE], vec![ONE, ONE], vec!["usual".to_string(); 2], vec![0, 0, ONE], vec![0, 0]);
    assert_eq!(r.unwrap_err(), MCDMRSError::DimensionMismatch);
    let r = Criteria::new(vec![ONE, -1], vec![ONE, ONE], vec!["usual".to_string(); 2], vec![0, 0], vec![0, 0]);
    assert_eq!(r.unwrap_err(), MCDMRSError::OutOfRange);
}

#[test]
fn prom_dimension_and_range_rejected() {
    let extra_row = Prom::new(to_fixed_mat(&[vec![0.; 3], vec![0.; 3], vec![0.; 3]]), usual_criteria(&[1., 1.], &[1., 1.]));
    assert_eq!(extra_row.unwrap_err(), MCDMRSError::DimensionMismatch);
    let ragged = Prom::new(to_fixed_mat(&[vec![0.; 3], vec![0.; 2]]), usual_criteria(&[1., 1.], &[1., 1.]));
    assert_eq!(ragged.unwrap_err(), MCDMRSError::DimensionMismatch);
    let bad_criteria = Criteria {
        weight: vec![ONE, ONE],
        criteria_type: vec![ONE],
        pref_function: vec!["usual".to_string(); 2],
        q: vec![0, 0],
        p: vec![0, 0],
    };
    assert_eq!(Prom::new(to_fixed_mat(&[vec![0.; 3], vec![0.; 3]]), bad_criteria).unwrap_err(), MCDMRSError::DimensionMismatch);
    let huge = Prom::new(vec![vec![0, i64::MAX], vec![0, 0]], usual_criteria(&[1., 1.], &[1., 1.]));
    assert_eq!(huge.unwrap_err(), MCDMRSError::OutOfRange);
}

#[test]
fn prom_stage_errors_propagate() {
    let mut crit = usual_criteria(&[1., 1.], &[1., 1.]);
    crit.pref_function[1] = "bogus".to_string();
    let mut p = Prom::new(to_fixed_mat(&[vec![0.8, 0.2], vec![0.1, 0.6]]), crit).unwrap();
    assert_eq!(p.compute_prom_ii(), Err(MCDMRSError::UnknownPreferenceFunction));
    assert!(p.mc_flow.is_none() && p.prom_i.is_none() && p.prom_ii.is_none());

    let mut single = Prom::new(to_fixed_mat(&[vec![0.8]]), usual_criteria(&[1.], &[1.])).unwrap();
    assert_eq!(single.compute_prom_i(), Err(MCDMRSError::DegenerateInput));
    assert_eq!(single.get_score(), vec![0]);
}

fn complex_inputs() -> (Vec<Vec<i64>>, Vec<i64>, Vec<i64>, Vec<String>, Vec<i64>, Vec<i64>) {
    let mat = vec![
        vec![-2.51, 9.01, 4.64, 1.97, -6.88, -6.88, -8.84, 7.32],
        vec![2.02, 4.16, -9.59, 9.4, 6.65, -5.75, -6.36, -6.33],
        vec![-3.92, 0.5, -1.36, -4.18, 2.24, -7.21, -4.16, -2.67],
        vec![-0.88, 5.7, -6.01, 0.28, 1.85, -9.07, 2.15, -6.59],
        vec![-8.7, 8.98, 9.31, 6.17, -3.91, -8.05, 3.68, -1.2],
        vec![-7.56, -0.1, -9.31, 8.19, -4.82, 3.25, -3.77, 0.4],
        vec![0.93, -6.3, 9.39, 5.5, 8.79, 7.9, 1.96, 8.44],
        vec![-8.23, -6.08, -9.1, -3.49, -2.23, -4.57, 6.57, -2.86],
        vec![-4.38, 0.85, -7.18, 6.04, -8.51, 9.74, 5.44, -6.03],
        vec![-9.89, 6.31, 4.14, 4.58, 5.43, -8.52, -2.83, -7.68],
        vec![7.26, 2.47, -3.38, -8.73, -3.78, -3.5, 4.59, 2.75],
        vec![7.74, -0.56, -7.61, 4.26, 5.22, 1.23, 5.42, -0.12],
        vec![0.45, -1.45, -9.49, -7.84, -9.37, 2.73, -3.71, 0.17],
        vec![8.15, -5.01, -1.79, 5.11, -5.42, -8.46, -4.2, -6.78],
        vec![8.59, 6.16, 2.67, 7.43, 6.07, -6.27, 7.85, 0.79],
        vec![6.15, 7.92, -3.64, -7.8, -5.44, -1.46, 6.36, 7.21],
        vec![-9.86, 0.21, -1.65, -5.56, -7.6, -3.25, 8.86, -3.54],
        vec![0.38, 4.06, -2.73, 9.44, 9.25, -4.96, -0.06, -3.98],
        vec![-4.3, -9.26, 2.19, 0.05, -8.97, -4.43, 8.17, -5.21],
        vec![-7.1, -0.21, 9.71, -5.16, 3.44, 5.23, -5.25, 4.56],
    ];
    let weight = to_fixed_vec(&[0.11, 0.157, 0.158, 0.14, 0.061, 0.194, 0.102, 0.078]);
    let criteria_type = to_fixed_vec(&[-1., -1., 1., 1., -1., 1., -1., 1.]);
    let pref_function: Vec<String> = ["vshape2", "usual", "ushape", "vshape", "usual", "level", "vshape2", "usual"]
        .map(String::from)
        .to_vec();
    let q = to_fixed_vec(&[0.37, 0.95, 0.73, 0.6, 0.16, 0.16, 0.06, 0.87]);
    let p = to_fixed_vec(&[0.6, 0.71, 0.02, 0.97, 0.83, 0.21, 0.18, 0.18]);
    (transpose(to_fixed_mat(&mat)), weight, criteria_type, pref_function, q, p)
}

fn complex_score(shape: Option<&str>) -> Result<Vec<i64>, MCDMRSError> {
    let (matrix, weights, criteria_types, prefs, q, p) = complex_inputs();
    let prefs = match shape {
        Some(s) => vec![s.to_string(); weights.len()],
        None => prefs,
    };
    let c = Criteria::new(weights, criteria_types, prefs, q, p).unwrap();
    let mut p = Prom::new(matrix, c).unwrap();
    p.compute_prom_ii()?;
    Ok(p.prom_ii.clone().unwrap().score)
}

#[test]
fn promethee_test_complex_prom_usual() {
    let exp = [
        0.06473685, -0.20399999, -0.07252632, -0.43105263, 0.01705263, 0.31663158, 0.49526317, -0.05600001,
        0.17242105, -0.14389474, -0.2128421, -0.05884212, 0.02673685, -0.07652631, -0.18705264, -0.2368421,
        0.02263158, -0.03126316, 0.14389474, 0.45147368,
    ];
    let score = complex_score(Some("usual")).unwrap();
    assert!(all_close_abs(&exp, &score, 1e-3), "expected: {:?} got: {:?}", exp, score);
}

#[test]
fn promethee_test_complex_prom_ushape() {
    let exp = [
        0.06057895, -0.1675263, -0.07547368, -0.45084211, 0.0148421, 0.29057895, 0.48699999, -0.06247369,
        0.18026316, -0.11463157, -0.20963158, -0.0568421, 0.04942106, -0.05994736, -0.20357895, -0.235,
        0.04815789, -0.05689473, 0.15105263, 0.41094736,
    ];
    let score = complex_score(Some("ushape")).unwrap();
    assert!(all_close_abs(&exp, &score, 1e-3), "expected: {:?} got: {:?}", exp, score);
}

#[test]
fn promethee_test_complex_prom_vshape() {
    let exp = [
        0.07147984, -0.18886907, -0.05906976, -0.44244925, -0.00348323, 0.31576549, 0.49052921, -0.04776636,
        0.18007082, -0.13397242, -0.21038076, -0.06793786, 0.03906552, -0.08500622, -0.1877535, -0.2465595,
        0.03436363, -0.04959235, 0.14923934, 0.44232639,
    ];
    let score = complex_score(Some("vshape")).unwrap();
    assert!(all_close_abs(&exp, &score, 1e-3), "expected: {:?} got: {:?}", exp, score);
}

#[test]
fn promethee_test_complex_prom_vshape2() {
    // Three of the criteria have p <= q, on which the linear shape would
    // divide by p - q: the computation reports degenerate input.
    assert_eq!(complex_score(Some("vshape2")), Err(MCDMRSError::DegenerateInput));
}

#[test]
fn promethee_test_complex_prom_level() {
    let exp = [
        0.0705, -0.18676315, -0.03955264, -0.45655263, -0.00836842, 0.30789475, 0.49118422, -0.0383158,
        0.18355263, -0.11926315, -0.20515789, -0.07128949, 0.03707895, -0.0905, -0.18047369, -0.24860526,
        0.03418421, -0.05397368, 0.14394737, 0.43047367,
    ];
    let score = complex_score(Some("level")).unwrap();
    assert!(all_close_abs(&exp, &score, 1e-3), "expected: {:?} got: {:?}", exp, score);
}

#[test]
fn promethee_test_complex_prom_all() {
    let exp = [
        0.05642106, -0.17198806, -0.07260072, -0.4366739, 0.02175211, 0.29782811, 0.50030197, -0.06959151,
        0.1629708, -0.13237331, -0.21495115, -0.05180758, 0.0496468, -0.07426273, -0.18974575, -0.23589474,
        0.03275095, -0.05369158, 0.14787299, 0.43403623,
    ];
    let score = complex_score(None).unwrap();
    assert!(all_close_abs(&exp, &score, 1e-3), "expected: {:?} got: {:?}", exp, score);
}

#[test]
fn test_generate_prom() {
    let mut p = generate_prom(10, 3).unwrap();
    assert_eq!(p.matrix_t.len(), 3);
    assert!(p.matrix_t.iter().all(|r| r.len() == 10));
    assert!(p.matrix_t.iter().flatten().all(|x| (0..RANDOM_VALUE_MAX).contains(x)));
    // thirty draws from [0, 20) are not all zero
    assert!(p.matrix_t.iter().flatten().any(|x| *x != 0));
    p.compute_prom_ii().expect("unable to compute promII");
    assert_eq!(p.get_score().len(), 10);
}
