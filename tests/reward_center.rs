use holaplex_indexer::reward_center::{
    PayoutOperation, RewardCenter, RewardCenterRow, TryFromIntError,
};

fn row(slot: i64, write_version: i64) -> RewardCenterRow {
    RewardCenterRow {
        address: "RC1".to_string(),
        token_mint: "Mint1".to_string(),
        auction_house: "AH1".to_string(),
        seller_reward_payout_basis_points: 150,
        mathematical_operand: PayoutOperation::Divide,
        payout_numeral: -3,
        bump: 254,
        slot,
        write_version,
    }
}

#[test]
fn reward_center_converts_row() {
    let rc = RewardCenter::try_from(row(42, 7)).unwrap();
    assert_eq!(rc.address(), "RC1");
    assert_eq!(rc.token_mint(), "Mint1");
    assert_eq!(rc.auction_house(), "AH1");
    assert_eq!(rc.bump(), 254);
    assert_eq!(rc.seller_reward_payout_basis_points(), 150);
    assert_eq!(rc.mathematical_operand(), PayoutOperation::Divide);
    assert_eq!(rc.payout_numeral(), -3);
    assert_eq!(rc.slot(), 42);
    assert_eq!(rc.write_version(), 7);
}

#[test]
fn reward_center_rejects_negative_slot() {
    assert_eq!(RewardCenter::try_from(row(-1, 7)).err(), Some(TryFromIntError));
    assert_eq!(RewardCenter::try_from(row(1, -7)).err(), Some(TryFromIntError));
    assert_eq!(RewardCenter::try_from(row(i64::MAX, 0)).unwrap().slot(), i64::MAX as u64);
}
