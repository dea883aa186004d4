use dfns_cggmp21_blueprint::committee::{
    account_before, current_committee, AccountId, EcdsaPublic, Member, Operator,
};
use dfns_cggmp21_blueprint::error::{ContextError, Error};

fn account(first: u8, last: u8) -> AccountId {
    let mut bytes = [0u8; 32];
    bytes[0] = first;
    bytes[31] = last;
    AccountId { bytes }
}

fn key(tag: u8) -> EcdsaPublic {
    let mut bytes = [tag; 33];
    bytes[0] = 0x02;
    EcdsaPublic { bytes }
}

fn operator(first: u8, last: u8, tag: u8) -> Operator {
    Operator { account: account(first, last), key: Some(key(tag)) }
}

#[test]
fn accounts_are_ordered_by_their_first_differing_byte() {
    assert!(account_before(&account(1, 9), &account(2, 0)));
    assert!(!account_before(&account(2, 0), &account(1, 9)));
    assert!(account_before(&account(1, 0), &account(1, 1)));
    assert!(!account_before(&account(1, 1), &account(1, 1)));
    assert!(account_before(&account(0, 255), &account(1, 0)));
    let mut high = [0u8; 32];
    high[5] = 0x80;
    let mut low = [0u8; 32];
    low[5] = 0x7f;
    low[6] = 0xff;
    assert!(account_before(&AccountId { bytes: low }, &AccountId { bytes: high }));
}

#[test]
fn committee_lists_operators_by_account() {
    let operators = vec![operator(9, 0, 1), operator(3, 0, 2), operator(5, 0, 3)];
    let committee = current_committee(&operators).unwrap();
    assert_eq!(committee.len(), 3);
    assert_eq!(committee.member(0), Some(Member { account: account(3, 0), key: key(2) }));
    assert_eq!(committee.member(1), Some(Member { account: account(5, 0), key: key(3) }));
    assert_eq!(committee.member(2), Some(Member { account: account(9, 0), key: key(1) }));
    assert_eq!(committee.member(3), None);
}

#[test]
fn two_nodes_with_the_same_snapshot_agree_on_the_indices() {
    let listed = vec![
        operator(9, 0, 1),
        operator(3, 0, 2),
        operator(5, 0, 3),
        operator(3, 1, 4),
        operator(0, 7, 5),
    ];
    let mut reversed = listed.clone();
    reversed.reverse();
    let mut rotated = listed.clone();
    rotated.rotate_left(2);
    let first = current_committee(&listed).unwrap();
    assert_eq!(first, current_committee(&reversed).unwrap());
    assert_eq!(first, current_committee(&rotated).unwrap());
    for own in &listed {
        let mine = first.party_index_and_parties(&own.account).unwrap();
        let theirs = current_committee(&reversed)
            .unwrap()
            .party_index_and_parties(&own.account)
            .unwrap();
        assert_eq!(mine, theirs);
    }
}

#[test]
fn party_index_is_the_place_in_the_order_of_accounts() {
    let operators = vec![operator(9, 0, 1), operator(3, 0, 2), operator(5, 0, 3)];
    let committee = current_committee(&operators).unwrap();
    let (index, parties) = committee.party_index_and_parties(&account(9, 0)).unwrap();
    assert_eq!(index, 2);
    assert_eq!(parties, vec![key(2), key(3), key(1)]);
    let (index, _) = committee.party_index_and_parties(&account(3, 0)).unwrap();
    assert_eq!(index, 0);
    let (index, _) = committee.party_index_and_parties(&account(5, 0)).unwrap();
    assert_eq!(index, 1);
}

#[test]
fn a_node_outside_the_committee_is_told_so() {
    let operators = vec![operator(9, 0, 1), operator(3, 0, 2)];
    let committee = current_committee(&operators).unwrap();
    assert_eq!(committee.party_index_and_parties(&account(4, 0)), Err(Error::NotInCommittee));
    let nobody = current_committee(&Vec::new()).unwrap();
    assert_eq!(nobody.len(), 0);
    assert_eq!(nobody.party_index_and_parties(&account(4, 0)), Err(Error::NotInCommittee));
}

#[test]
fn an_operator_without_a_key_is_named() {
    let operators = vec![
        operator(9, 0, 1),
        Operator { account: account(7, 0), key: None },
        operator(3, 0, 2),
        Operator { account: account(5, 0), key: None },
    ];
    assert_eq!(
        current_committee(&operators),
        Err(Error::Context(ContextError::MissingOperatorKey(account(5, 0))))
    );
}

#[test]
fn the_entry_listed_last_counts_for_an_account() {
    let operators = vec![operator(9, 0, 1), operator(3, 0, 2), operator(9, 0, 7)];
    let committee = current_committee(&operators).unwrap();
    assert_eq!(committee.len(), 2);
    assert_eq!(committee.member(1), Some(Member { account: account(9, 0), key: key(7) }));
    let repaired = vec![Operator { account: account(3, 0), key: None }, operator(3, 0, 2)];
    assert_eq!(current_committee(&repaired).unwrap().len(), 1);
}

#[test]
fn more_operators_than_indices_are_refused() {
    let mut operators = Vec::new();
    for i in 0..=65535u32 {
        let mut bytes = [0u8; 32];
        bytes[0] = (i >> 8) as u8;
        bytes[1] = (i & 0xff) as u8;
        operators.push(Operator { account: AccountId { bytes }, key: Some(key(1)) });
    }
    assert_eq!(
        current_committee(&operators),
        Err(Error::Context(ContextError::CommitteeTooLarge))
    );
    operators.pop();
    assert_eq!(current_committee(&operators).unwrap().len(), 65535);
}
