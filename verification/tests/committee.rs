use sui_types::base_types::AuthorityName;
use sui_types::committee::Committee;
use sui_types::error::SuiError;

fn name(fill: u8) -> AuthorityName {
    AuthorityName([fill; 96])
}

fn committee(stakes: &[u64]) -> Committee {
    let rights = stakes.iter().enumerate().map(|(i, s)| (name(i as u8 + 1), *s)).collect();
    Committee::new(0, rights).unwrap()
}

#[test]
fn the_thresholds_follow_the_formulas() {
    let cases: [(&[u64], u64, u64, u64); 6] = [
        (&[1, 1, 1, 1], 4, 3, 2),
        (&[1, 1, 1], 3, 3, 2),
        (&[1], 1, 1, 1),
        (&[4, 3, 3], 10, 7, 4),
        (&[100], 100, 67, 34),
        (&[2, 2, 2], 6, 5, 3),
    ];
    for (stakes, total, quorum, validity) in cases {
        let c = committee(stakes);
        assert_eq!(c.total_votes(), total);
        assert_eq!(c.quorum_threshold(), quorum);
        assert_eq!(c.validity_threshold(), validity);
    }
}

#[test]
fn the_thresholds_do_not_overflow_at_the_greatest_stake() {
    let c = committee(&[u64::MAX]);
    assert_eq!(c.total_votes(), u64::MAX);
    assert_eq!(c.quorum_threshold(), 12297829382473034411);
    assert_eq!(c.validity_threshold(), 6148914691236517206);
}

#[test]
fn the_weight_of_a_stranger_is_zero() {
    let c = committee(&[5, 0, 7]);
    assert_eq!(c.weight(&name(1)), 5);
    assert_eq!(c.weight(&name(2)), 0);
    assert_eq!(c.weight(&name(3)), 7);
    assert_eq!(c.weight(&name(4)), 0);
    assert_eq!(c.epoch(), 0);
    assert_eq!(c.num_members(), 3);
}

#[test]
fn the_authorities_stand_in_the_order_of_their_names() {
    let c = Committee::new(5, vec![(name(9), 1), (name(3), 2), (name(7), 3)]).unwrap();
    assert_eq!(c.epoch(), 5);
    assert_eq!(c.authority_index(&name(3)), Some(0));
    assert_eq!(c.authority_index(&name(7)), Some(1));
    assert_eq!(c.authority_index(&name(9)), Some(2));
    assert_eq!(c.authority_index(&name(1)), None);
    assert_eq!(c.authority_by_index(0), Some(&name(3)));
    assert_eq!(c.authority_by_index(2), Some(&name(9)));
    assert_eq!(c.authority_by_index(3), None);
    assert_eq!(c.stake_at(1), 3);
    assert_eq!(c.total_votes(), 6);
}

#[test]
fn a_committee_needs_members_distinct_names_and_stake_within_bounds() {
    assert_eq!(Committee::new(0, vec![]).err(), Some(SuiError::InvalidCommittee));
    assert_eq!(
        Committee::new(0, vec![(name(1), 1), (name(1), 2)]).err(),
        Some(SuiError::InvalidCommittee)
    );
    assert_eq!(
        Committee::new(0, vec![(name(1), 0), (name(2), 0)]).err(),
        Some(SuiError::InvalidCommittee)
    );
    assert_eq!(
        Committee::new(0, vec![(name(1), u64::MAX), (name(2), 1)]).err(),
        Some(SuiError::InvalidCommittee)
    );
    assert!(Committee::new(0, vec![(name(1), u64::MAX - 1), (name(2), 1)]).is_ok());
}
