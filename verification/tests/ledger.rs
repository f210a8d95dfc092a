use psp34::AccountId;
use psp34::Id;
use psp34::PSP34Data;
use psp34::PSP34Error;
use psp34::PSP34Event;

fn alice() -> AccountId {
    AccountId::new(0, 1)
}

fn bob() -> AccountId {
    AccountId::new(0, 2)
}

fn carol() -> AccountId {
    AccountId::new(0, 3)
}

fn minted_id(events: &[PSP34Event]) -> Id {
    match &events[0] {
        PSP34Event::Transfer { from, to: _, id } => {
            assert!(from.is_none());
            id.clone()
        },
        _ => panic!("expected a transfer event"),
    }
}

#[test]
fn mint_assigns_fresh_monotonic_ids() {
    let mut data = PSP34Data::new(None);
    let e0 = data.mint(alice()).unwrap();
    let e1 = data.mint(alice()).unwrap();
    let e2 = data.mint(bob()).unwrap();
    assert_eq!(minted_id(&e0), Id::U128(0));
    assert_eq!(minted_id(&e1), Id::U128(1));
    assert_eq!(minted_id(&e2), Id::U128(2));
    assert_eq!(data.total_supply(), 3);
}

#[test]
fn mint_round_trip() {
    // mint(a) returns id x; owner_of(x) == a; the new token stands at the
    // end of the global enumeration.
    let mut data = PSP34Data::new(None);
    data.mint(bob()).unwrap();
    let events = data.mint(alice()).unwrap();
    let x = minted_id(&events);
    assert_eq!(data.owner_of(x.clone()), Some(alice()));
    let last = data.total_supply() - 1;
    assert_eq!(data.token_by_index(last), Some(x));
}

#[test]
fn token_by_index_out_of_range_is_none() {
    let mut data = PSP34Data::new(None);
    assert_eq!(data.token_by_index(0), None);
    data.mint(alice()).unwrap();
    data.mint(bob()).unwrap();
    assert_eq!(data.token_by_index(data.total_supply()), None);
    assert!(data.token_by_index(data.total_supply() - 1).is_some());
}

#[test]
fn supply_invariant_under_mints_and_burns() {
    let mut data = PSP34Data::new(None);
    for _ in 0..5 {
        data.mint(alice()).unwrap();
    }
    data.burn(alice(), Id::U128(1)).unwrap();
    data.burn(alice(), Id::U128(3)).unwrap();
    data.mint(bob()).unwrap();
    // total supply == size of the global enumeration == number of owned ids
    let supply = data.total_supply();
    assert_eq!(supply, 4);
    let mut listed = 0;
    for i in 0..supply {
        let id = data.token_by_index(i).unwrap();
        assert!(data.owner_of(id).is_some());
        listed += 1;
    }
    assert_eq!(listed, supply);
    assert_eq!(data.token_by_index(supply), None);
}

#[test]
fn balance_invariant_per_owner() {
    let mut data = PSP34Data::new(None);
    data.mint(alice()).unwrap();
    data.mint(alice()).unwrap();
    data.mint(bob()).unwrap();
    assert_eq!(data.balance_of(alice()), 2);
    assert_eq!(data.balance_of(bob()), 1);
    assert_eq!(data.balance_of(carol()), 0);
    // each owner's enumeration matches its balance, and every listed token
    // is owned by that owner
    for i in 0..data.balance_of(alice()) {
        let id = data.owners_token_by_index(alice(), i as u128).unwrap();
        assert_eq!(data.owner_of(id), Some(alice()));
    }
    assert_eq!(data.owners_token_by_index(alice(), 2), None);
    assert_eq!(data.owners_token_by_index(carol(), 0), None);
}

#[test]
fn burn_requires_the_named_holder() {
    let mut data = PSP34Data::new(None);
    data.mint(alice()).unwrap();
    let r = data.burn(bob(), Id::U128(0));
    assert!(matches!(r, Err(PSP34Error::TokenNotExists)));
    let r = data.burn(alice(), Id::U128(7));
    assert!(matches!(r, Err(PSP34Error::TokenNotExists)));
    assert_eq!(data.total_supply(), 1);
    let events = data.burn(alice(), Id::U128(0)).unwrap();
    match &events[0] {
        PSP34Event::Transfer { from, to, id } => {
            assert_eq!(*from, Some(alice()));
            assert!(to.is_none());
            assert_eq!(*id, Id::U128(0));
        },
        _ => panic!("expected a transfer event"),
    }
    assert_eq!(data.total_supply(), 0);
    assert_eq!(data.owner_of(Id::U128(0)), None);
    assert_eq!(data.balance_of(alice()), 0);
}

#[test]
fn burned_ids_are_never_reused() {
    let mut data = PSP34Data::new(None);
    data.mint(alice()).unwrap();
    data.burn(alice(), Id::U128(0)).unwrap();
    let events = data.mint(alice()).unwrap();
    assert_eq!(minted_id(&events), Id::U128(1));
    assert_eq!(data.owner_of(Id::U128(0)), None);
}

#[test]
fn max_supply_is_enforced() {
    let mut data = PSP34Data::new(Some(2));
    assert_eq!(data.max_supply(), Some(2));
    data.mint(alice()).unwrap();
    data.mint(alice()).unwrap();
    let r = data.mint(alice());
    assert!(matches!(r, Err(PSP34Error::ReachedMaxSupply)));
    assert_eq!(data.total_supply(), 2);
    // burning frees room under the cap
    data.burn(alice(), Id::U128(0)).unwrap();
    assert!(data.mint(alice()).is_ok());
}

#[test]
fn mint_to_zero_account_is_rejected() {
    let mut data = PSP34Data::new(None);
    let r = data.mint(AccountId::zero());
    assert!(matches!(r, Err(PSP34Error::SafeTransferCheckFailed(_))));
    assert_eq!(data.total_supply(), 0);
}

#[test]
fn transfer_moves_ownership_and_balances() {
    let mut data = PSP34Data::new(None);
    data.mint(alice()).unwrap();
    data.mint(alice()).unwrap();
    let events = data.transfer(alice(), bob(), Id::U128(0), vec![]).unwrap();
    match &events[0] {
        PSP34Event::Transfer { from, to, id } => {
            assert_eq!(*from, Some(alice()));
            assert_eq!(*to, Some(bob()));
            assert_eq!(*id, Id::U128(0));
        },
        _ => panic!("expected a transfer event"),
    }
    assert_eq!(data.owner_of(Id::U128(0)), Some(bob()));
    assert_eq!(data.balance_of(alice()), 1);
    assert_eq!(data.balance_of(bob()), 1);
    assert_eq!(data.total_supply(), 2);
    assert_eq!(data.owners_token_by_index(bob(), 0), Some(Id::U128(0)));
}

#[test]
fn transfer_to_zero_account_rejected_and_mutates_nothing() {
    let mut data = PSP34Data::new(None);
    data.mint(alice()).unwrap();
    let r = data.transfer(alice(), AccountId::zero(), Id::U128(0), vec![1, 2]);
    assert!(matches!(r, Err(PSP34Error::SafeTransferCheckFailed(_))));
    assert_eq!(data.owner_of(Id::U128(0)), Some(alice()));
    assert_eq!(data.balance_of(alice()), 1);
    assert_eq!(data.total_supply(), 1);
    assert_eq!(data.token_by_index(0), Some(Id::U128(0)));
}

#[test]
fn transfer_of_missing_token_fails() {
    let mut data = PSP34Data::new(None);
    let r = data.transfer(alice(), bob(), Id::U128(0), vec![]);
    assert!(matches!(r, Err(PSP34Error::TokenNotExists)));
}

#[test]
fn transfer_by_stranger_fails() {
    let mut data = PSP34Data::new(None);
    data.mint(alice()).unwrap();
    let r = data.transfer(bob(), carol(), Id::U128(0), vec![]);
    assert!(matches!(r, Err(PSP34Error::NotApproved)));
    assert_eq!(data.owner_of(Id::U128(0)), Some(alice()));
}

#[test]
fn transfer_to_self_keeps_the_ledger_consistent() {
    let mut data = PSP34Data::new(None);
    data.mint(alice()).unwrap();
    data.mint(alice()).unwrap();
    data.transfer(alice(), alice(), Id::U128(0), vec![]).unwrap();
    assert_eq!(data.owner_of(Id::U128(0)), Some(alice()));
    assert_eq!(data.balance_of(alice()), 2);
    assert_eq!(data.total_supply(), 2);
}

#[test]
fn operator_with_single_approval_can_transfer_from() {
    let mut data = PSP34Data::new(None);
    data.mint(alice()).unwrap();
    data.approve(alice(), bob(), Some(Id::U128(0)), true).unwrap();
    assert!(data.allowance(alice(), bob(), Some(Id::U128(0))));
    let r = data.transfer_from(bob(), alice(), carol(), Id::U128(0), vec![]);
    assert!(r.is_ok());
    assert_eq!(data.owner_of(Id::U128(0)), Some(carol()));
    assert_eq!(data.balance_of(alice()), 0);
    assert_eq!(data.balance_of(carol()), 1);
}

#[test]
fn operator_with_blanket_approval_can_transfer_from() {
    let mut data = PSP34Data::new(None);
    data.mint(alice()).unwrap();
    data.approve(alice(), bob(), None, true).unwrap();
    assert!(data.allowance(alice(), bob(), None));
    assert!(data.allowance(alice(), bob(), Some(Id::U128(0))));
    data.transfer_from(bob(), alice(), bob(), Id::U128(0), vec![]).unwrap();
    assert_eq!(data.owner_of(Id::U128(0)), Some(bob()));
}

#[test]
fn transfer_from_with_wrong_source_fails() {
    let mut data = PSP34Data::new(None);
    data.mint(alice()).unwrap();
    // bob may move the token, but it is not carol's
    data.approve(alice(), bob(), None, true).unwrap();
    let r = data.transfer_from(bob(), carol(), bob(), Id::U128(0), vec![]);
    assert!(matches!(r, Err(PSP34Error::NotApproved)));
    assert_eq!(data.owner_of(Id::U128(0)), Some(alice()));
}

#[test]
fn transfer_clears_single_token_allowances() {
    let mut data = PSP34Data::new(None);
    data.mint(alice()).unwrap();
    data.approve(alice(), bob(), Some(Id::U128(0)), true).unwrap();
    data.approve(alice(), carol(), Some(Id::U128(0)), true).unwrap();
    data.transfer(alice(), bob(), Id::U128(0), vec![]).unwrap();
    // every previously approved single-token operator lost its grant
    assert!(!data.allowance(alice(), bob(), Some(Id::U128(0))));
    assert!(!data.allowance(alice(), carol(), Some(Id::U128(0))));
}

#[test]
fn transfer_keeps_blanket_allowances() {
    let mut data = PSP34Data::new(None);
    data.mint(alice()).unwrap();
    data.approve(alice(), bob(), None, true).unwrap();
    data.transfer(alice(), carol(), Id::U128(0), vec![]).unwrap();
    assert!(data.allowance(alice(), bob(), None));
}

#[test]
fn self_approve_is_rejected() {
    let mut data = PSP34Data::new(None);
    data.mint(alice()).unwrap();
    let r = data.approve(alice(), alice(), Some(Id::U128(0)), true);
    assert!(matches!(r, Err(PSP34Error::SelfApprove)));
    assert!(!data.allowance(alice(), alice(), Some(Id::U128(0))));
    // revoking from oneself is not a self-approval
    assert!(data.approve(alice(), alice(), Some(Id::U128(0)), false).is_ok());
}

#[test]
fn approve_missing_token_fails() {
    let mut data = PSP34Data::new(None);
    let r = data.approve(alice(), bob(), Some(Id::U128(9)), true);
    assert!(matches!(r, Err(PSP34Error::TokenNotExists)));
}

#[test]
fn approve_by_stranger_fails() {
    let mut data = PSP34Data::new(None);
    data.mint(alice()).unwrap();
    let r = data.approve(bob(), carol(), Some(Id::U128(0)), true);
    assert!(matches!(r, Err(PSP34Error::NotApproved)));
    assert!(!data.allowance(alice(), carol(), Some(Id::U128(0))));
}

#[test]
fn approved_operator_can_delegate_a_single_grant() {
    let mut data = PSP34Data::new(None);
    data.mint(alice()).unwrap();
    data.approve(alice(), bob(), Some(Id::U128(0)), true).unwrap();
    // bob holds an effective allowance on the token, so it may grant one to
    // carol; the grant is recorded for the owner
    let events = data.approve(bob(), carol(), Some(Id::U128(0)), true).unwrap();
    match &events[0] {
        PSP34Event::Approval { owner, operator, id, approved } => {
            assert_eq!(*owner, alice());
            assert_eq!(*operator, carol());
            assert_eq!(*id, Some(Id::U128(0)));
            assert!(*approved);
        },
        _ => panic!("expected an approval event"),
    }
    assert!(data.allowance(alice(), carol(), Some(Id::U128(0))));
}

#[test]
fn single_grant_beside_blanket_is_redundant_not_an_error() {
    let mut data = PSP34Data::new(None);
    data.mint(alice()).unwrap();
    data.approve(alice(), bob(), None, true).unwrap();
    // the permissive semantics: granting a single-token approval on top of
    // a blanket one succeeds
    assert!(data.approve(alice(), bob(), Some(Id::U128(0)), true).is_ok());
    // revoking the single grant leaves the blanket grant effective
    assert!(data.approve(alice(), bob(), Some(Id::U128(0)), false).is_ok());
    assert!(data.allowance(alice(), bob(), Some(Id::U128(0))));
    // revoking the blanket grant ends it
    data.approve(alice(), bob(), None, false).unwrap();
    assert!(!data.allowance(alice(), bob(), Some(Id::U128(0))));
    assert!(!data.allowance(alice(), bob(), None));
}

#[test]
fn approvals_are_idempotent() {
    let mut data = PSP34Data::new(None);
    data.mint(alice()).unwrap();
    data.approve(alice(), bob(), Some(Id::U128(0)), true).unwrap();
    data.approve(alice(), bob(), Some(Id::U128(0)), true).unwrap();
    assert!(data.allowance(alice(), bob(), Some(Id::U128(0))));
    data.approve(alice(), bob(), Some(Id::U128(0)), false).unwrap();
    data.approve(alice(), bob(), Some(Id::U128(0)), false).unwrap();
    assert!(!data.allowance(alice(), bob(), Some(Id::U128(0))));
}

#[test]
fn mint_with_attributes_writes_and_reports_them() {
    let mut data = PSP34Data::new(None);
    let events = data
        .mint_with_attributes(
            alice(),
            vec![(b"name".to_vec(), b"unit".to_vec()), (b"tier".to_vec(), b"gold".to_vec())],
        )
        .unwrap();
    assert_eq!(events.len(), 3);
    let id = minted_id(&events);
    match &events[1] {
        PSP34Event::AttributeSet { id: eid, key, data } => {
            assert_eq!(*eid, id);
            assert_eq!(key, &b"name".to_vec());
            assert_eq!(data, &b"unit".to_vec());
        },
        _ => panic!("expected an attribute event"),
    }
    assert_eq!(data.get_attribute(id.clone(), b"name".to_vec()), Some(b"unit".to_vec()));
    assert_eq!(data.get_attribute(id.clone(), b"tier".to_vec()), Some(b"gold".to_vec()));
    assert_eq!(data.get_attribute(id, b"color".to_vec()), None);
}

#[test]
fn later_attribute_writes_overwrite_earlier_ones() {
    let mut data = PSP34Data::new(None);
    let events = data
        .mint_with_attributes(
            alice(),
            vec![(b"k".to_vec(), b"first".to_vec()), (b"k".to_vec(), b"second".to_vec())],
        )
        .unwrap();
    let id = minted_id(&events);
    assert_eq!(data.get_attribute(id, b"k".to_vec()), Some(b"second".to_vec()));
}

#[test]
fn attributes_are_scoped_per_token() {
    let mut data = PSP34Data::new(None);
    let e0 = data.mint_with_attributes(alice(), vec![(b"k".to_vec(), b"a".to_vec())]).unwrap();
    let e1 = data.mint_with_attributes(alice(), vec![(b"k".to_vec(), b"b".to_vec())]).unwrap();
    assert_eq!(data.get_attribute(minted_id(&e0), b"k".to_vec()), Some(b"a".to_vec()));
    assert_eq!(data.get_attribute(minted_id(&e1), b"k".to_vec()), Some(b"b".to_vec()));
}

#[test]
fn approval_event_for_blanket_grant() {
    let mut data = PSP34Data::new(None);
    let events = data.approve(alice(), bob(), None, true).unwrap();
    assert_eq!(events.len(), 1);
    match &events[0] {
        PSP34Event::Approval { owner, operator, id, approved } => {
            assert_eq!(*owner, alice());
            assert_eq!(*operator, bob());
            assert!(id.is_none());
            assert!(*approved);
        },
        _ => panic!("expected an approval event"),
    }
}

#[test]
fn a_fresh_ledger_is_empty() {
    let data = PSP34Data::new(None);
    assert_eq!(data.total_supply(), 0);
    assert_eq!(data.max_supply(), None);
    assert_eq!(data.balance_of(alice()), 0);
    assert_eq!(data.owner_of(Id::U128(0)), None);
    assert!(!data.allowance(alice(), bob(), None));
    assert_eq!(data.get_attribute(Id::U128(0), b"k".to_vec()), None);
}

#[test]
fn revoking_an_approval_is_reported() {
    let mut data = PSP34Data::new(None);
    data.mint(alice()).unwrap();
    data.approve(alice(), bob(), Some(Id::U128(0)), true).unwrap();
    let events = data.approve(alice(), bob(), Some(Id::U128(0)), false).unwrap();
    match &events[0] {
        PSP34Event::Approval { owner, operator, id, approved } => {
            assert_eq!(*owner, alice());
            assert_eq!(*operator, bob());
            assert_eq!(*id, Some(Id::U128(0)));
            assert!(!*approved);
        },
        _ => panic!("expected an approval event"),
    }
    assert!(!data.allowance(alice(), bob(), Some(Id::U128(0))));
}

#[test]
fn burn_keeps_approval_and_attribute_residue_for_the_dead_id() {
    // the burned identifier is never handed out again, so grants and
    // attributes recorded under it stay behind without covering anything
    let mut data = PSP34Data::new(None);
    data.mint_with_attributes(alice(), vec![(b"k".to_vec(), b"v".to_vec())]).unwrap();
    data.approve(alice(), bob(), Some(Id::U128(0)), true).unwrap();
    data.burn(alice(), Id::U128(0)).unwrap();
    assert_eq!(data.owner_of(Id::U128(0)), None);
    assert!(data.allowance(alice(), bob(), Some(Id::U128(0))));
    assert_eq!(data.get_attribute(Id::U128(0), b"k".to_vec()), Some(b"v".to_vec()));
    // and the dead grant gives bob no power over anything
    let r = data.transfer_from(bob(), alice(), carol(), Id::U128(0), vec![]);
    assert!(matches!(r, Err(PSP34Error::TokenNotExists)));
}

#[test]
fn global_enumeration_compacts_by_swap_and_pop() {
    let mut data = PSP34Data::new(None);
    for _ in 0..4 {
        data.mint(alice()).unwrap();
    }
    // [0, 1, 2, 3]; burning 1 moves the last token into its slot
    data.burn(alice(), Id::U128(1)).unwrap();
    assert_eq!(data.token_by_index(0), Some(Id::U128(0)));
    assert_eq!(data.token_by_index(1), Some(Id::U128(3)));
    assert_eq!(data.token_by_index(2), Some(Id::U128(2)));
    assert_eq!(data.token_by_index(3), None);
}

#[test]
fn owner_enumeration_compacts_by_swap_and_pop() {
    let mut data = PSP34Data::new(None);
    for _ in 0..4 {
        data.mint(alice()).unwrap();
    }
    // alice holds [0, 1, 2, 3]; transferring 1 away swaps 3 into its slot
    data.transfer(alice(), bob(), Id::U128(1), vec![]).unwrap();
    assert_eq!(data.owners_token_by_index(alice(), 0), Some(Id::U128(0)));
    assert_eq!(data.owners_token_by_index(alice(), 1), Some(Id::U128(3)));
    assert_eq!(data.owners_token_by_index(alice(), 2), Some(Id::U128(2)));
    assert_eq!(data.owners_token_by_index(alice(), 3), None);
    assert_eq!(data.owners_token_by_index(bob(), 0), Some(Id::U128(1)));
}

#[test]
fn zero_account_may_not_move_tokens_it_could_never_own() {
    let mut data = PSP34Data::new(None);
    data.mint(alice()).unwrap();
    // even a blanket grant to the zero account gives it no power
    data.approve(alice(), AccountId::zero(), None, true).unwrap();
    let r = data.transfer_from(AccountId::zero(), alice(), bob(), Id::U128(0), vec![]);
    assert!(matches!(r, Err(PSP34Error::NotApproved)));
}
