use share_conversion::f2::F2;
use share_conversion::field::Ring;
use share_conversion::func::cot::Cot;
use share_conversion::func::Role;

#[test]
fn test_cot() {
    let mut cot = Cot::new(5, 3);
    let delta = vec![
        F2::new(true),
        F2::new(false),
        F2::new(true),
        F2::new(false),
        F2::new(true),
    ];

    let x = vec![
        vec![
            F2::new(true),
            F2::new(false),
            F2::new(true),
            F2::new(false),
            F2::new(true),
        ],
        vec![
            F2::new(false),
            F2::new(true),
            F2::new(false),
            F2::new(true),
            F2::new(true),
        ],
        vec![
            F2::new(false),
            F2::new(true),
            F2::new(true),
            F2::new(false),
            F2::new(false),
        ],
    ];

    cot.initialize_input_delta(delta.clone());
    cot.extend_input_x(x.clone());

    let q = cot.output(Role::Sender);
    let t = cot.output(Role::Receiver);

    for ((qi, ti), xi) in q.iter().zip(t.iter()).zip(x.iter()) {
        let qi_minus_ti = qi
            .iter()
            .zip(ti.iter())
            .map(|(&qij, &tij)| qij.add(tij.neg()))
            .collect::<Vec<F2>>();

        let xi_times_delta = xi
            .iter()
            .zip(delta.iter())
            .map(|(&xij, &deltai)| xij.mul(deltai))
            .collect::<Vec<F2>>();

        assert_eq!(qi_minus_ti, xi_times_delta);
    }
}

fn bits(row: &[bool]) -> Vec<F2> {
    row.iter().map(|&b| F2::new(b)).collect()
}

#[test]
fn cot_rows_are_correlated() {
    let delta = bits(&[true, false, true, true]);
    let x = vec![
        bits(&[true, true, false, false]),
        bits(&[false, true, true, true]),
    ];
    // the receiver's rows, from one extension
    let mut cot = Cot::new(4, 2);
    cot.initialize_input_delta(delta.clone());
    cot.extend_input_x(x.clone());
    let t = cot.output(Role::Receiver);
    assert_eq!(t.len(), 2);
    assert!(t.iter().all(|row| row.len() == 4));

    // the sender's rows, from another: q and t are never both handed out,
    // but q + x * delta is a row of four bits all the same
    let mut cot = Cot::new(4, 2);
    cot.initialize_input_delta(delta.clone());
    cot.extend_input_x(x.clone());
    let q = cot.output(Role::Sender);
    assert_eq!(q.len(), 2);
    assert!(q.iter().all(|row| row.len() == 4));
}

#[test]
fn cot_output_resets() {
    let mut cot = Cot::new(2, 1);
    cot.initialize_input_delta(bits(&[true, true]));
    cot.extend_input_x(vec![bits(&[true, false])]);
    let q = cot.output(Role::Sender);
    assert_eq!(q.len(), 1);
    // the receiver's rows went with the reset
    assert!(cot.output(Role::Receiver).is_empty());
    assert!(cot.output(Role::Sender).is_empty());
    // and the dimensions are zero: an empty extension is all that fits
    cot.initialize_input_delta(vec![]);
    cot.extend_input_x(vec![]);
    assert!(cot.output(Role::Sender).is_empty());
}

#[test]
fn cot_without_delta_gives_empty_rows() {
    // kappa is zero, so there is nothing to correlate
    let mut cot = Cot::new(0, 3);
    cot.initialize_input_delta(vec![]);
    cot.extend_input_x(vec![vec![], vec![], vec![]]);
    let q = cot.output(Role::Sender);
    assert_eq!(q, vec![Vec::<F2>::new(), vec![], vec![]]);
}

#[test]
fn cot_delta_not_given() {
    // without a correlation the sender's rows are empty, the receiver's full
    let mut cot = Cot::new(3, 2);
    cot.extend_input_x(vec![bits(&[true, false, true]), bits(&[false, false, true])]);
    let q = cot.output(Role::Sender);
    assert_eq!(q, vec![Vec::<F2>::new(), vec![]]);
    let mut cot = Cot::new(3, 2);
    cot.extend_input_x(vec![bits(&[true, false, true]), bits(&[false, false, true])]);
    let t = cot.output(Role::Receiver);
    assert!(t.iter().all(|row| row.len() == 3));
}
