use advantage::checkpointing::gauss_sum_reverse;
use advantage::errors::adv_error;
use advantage::generalized_jacobian::bit_iter;
use advantage::{beta, find_t, reverse_sequence, schedule};

#[test]
fn find_t_tests() {
    assert_eq!(find_t(3, 100), 7);
}

#[test]
fn schedule_tests() {
    assert_eq!(&schedule(0, 100), &[] as &[usize]);
    assert_eq!(&schedule(1, 100), &[99]);
    assert_eq!(&schedule(2, 100), &[87, 99]);
    assert_eq!(&schedule(3, 100), &[65, 93, 99]);
    assert_eq!(&schedule(4, 100), &[50, 80, 95, 99]);
    assert_eq!(&schedule(5, 100), &[45, 70, 86, 96, 99]);

    assert_eq!(&schedule(42, 0), &[] as &[usize]);
    assert_eq!(&schedule(42, 1), &[] as &[usize]);
    assert_eq!(&schedule(42, 2), &[1]);
    assert_eq!(&schedule(42, 3), &[1, 2]);
    assert_eq!(&schedule(42, 4), &[1, 2, 3]);

    assert_eq!(schedule(42, 41), (1..41).collect::<Vec<usize>>());

    assert_eq!(schedule(5, 5), &[1, 2, 3, 4]);
}

#[test]
fn schedule_consistency() {
    let c = 4;
    let r = 100;
    let full_schedule = schedule(c, r);
    let first_cp = *full_schedule.first().unwrap();
    let partial_schedule = schedule(c - 1, r - first_cp)
        .into_iter()
        .map(|cp| cp + first_cp)
        .collect::<Vec<usize>>();
    assert_eq!(&partial_schedule[..], &full_schedule[1..]);
}

#[test]
fn sequence_reverse_gauss_sum() {
    let r = 37;
    let reference = r * (r + 1) / 2;
    let result = reverse_sequence(0, r, 9, |x| x + 1, |x, y| x + y, |x| x);
    assert_eq!(result, reference);
}

/// The proved law behind `sequence_reverse_gauss_sum`: the result is the
/// triangular number for every checkpoint budget.
#[test]
fn gauss_sum_budget_independent() {
    for ncheckpoints in 2..12 {
        assert_eq!(gauss_sum_reverse(37, ncheckpoints), 703);
    }
    assert_eq!(gauss_sum_reverse(0, 2), 0);
    assert_eq!(gauss_sum_reverse(1, 5), 1);
    assert_eq!(gauss_sum_reverse(100, 3), 5050);
}

/// The saturating binomial agrees with small exact values.
#[test]
fn binomial_values() {
    // binomial(c + t, c)
    assert_eq!(beta(1, 4), 5);
    assert_eq!(beta(2, 3), 10);
    assert_eq!(beta(3, 7), 120);
    assert_eq!(beta(0, 5), 0);
    assert_eq!(beta(5, 0), 0);
    assert_eq!(beta(-1, 3), 0);
    assert_eq!(beta(3, -1), 0);
}

/// The first placement matches the self-similar head of the schedule.
#[test]
fn next_checkpoint_heads_schedule() {
    for &(c, r) in &[(2usize, 100usize), (3, 100), (4, 100), (5, 100), (3, 50), (4, 37)] {
        let s = schedule(c, r);
        let head = advantage::next_checkpoint(c, r).max(1).min(r - 1);
        assert_eq!(s[0], head);
    }
}

#[test]
fn error_codes() {
    assert_eq!(
        adv_error::from_result(Ok(())),
        adv_error::ADV_ERROR_SUCCESS
    );
    assert_eq!(
        adv_error::from_result(Err(adv_error::ADV_ERROR_DIM_MISMATCH)),
        adv_error::ADV_ERROR_DIM_MISMATCH
    );
    assert_eq!(adv_error::ADV_ERROR_SUCCESS.into_result(), Ok(()));
    assert_eq!(
        adv_error::ADV_ERROR_DIM_MISMATCH.into_result(),
        Err(adv_error::ADV_ERROR_DIM_MISMATCH)
    );
}

#[test]
fn sign_iter() {
    let bits = vec![0b1000_0011, 0b1100_0111];
    let mut iter = bit_iter(&bits);

    assert_eq!(iter.next(), true);
    assert_eq!(iter.next(), true);
    assert_eq!(iter.next(), false);
    assert_eq!(iter.next(), false);
    assert_eq!(iter.next(), false);
    assert_eq!(iter.next(), false);
    assert_eq!(iter.next(), false);
    assert_eq!(iter.next(), true);

    assert_eq!(iter.next(), true);
    assert_eq!(iter.next(), true);
    assert_eq!(iter.next(), true);
    assert_eq!(iter.next(), false);
    assert_eq!(iter.next(), false);
    assert_eq!(iter.next(), false);
    assert_eq!(iter.next(), true);
    assert_eq!(iter.next(), true);
}
