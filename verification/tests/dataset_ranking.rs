use lab::ranking::competition_ranks;

#[test]
fn tied_runs_share_a_rank_and_the_next_run_takes_its_position() {
    assert_eq!(competition_ranks(&vec![false, true]), vec![1, 1]);
    assert_eq!(
        competition_ranks(&vec![false, true, false, false, true, true]),
        vec![1, 1, 3, 4, 4, 4]
    );
}

#[test]
fn distinct_scores_rank_by_position() {
    assert_eq!(competition_ranks(&vec![false, false, false]), vec![1, 2, 3]);
    assert_eq!(competition_ranks(&vec![true]), vec![1]);
    assert_eq!(competition_ranks(&vec![]), Vec::<usize>::new());
}
