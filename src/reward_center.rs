//! A reward center of an auction house, as the query API shows it.
use vstd::prelude::*;

verus! {

/// How a payout is derived from the payout numeral.
#[derive(Clone, Copy, PartialEq, Eq, Structural, Debug)]
pub enum PayoutOperation {
    Multiple,
    Divide,
}

/// A stored reward-center row.
#[derive(Clone, Debug)]
pub struct RewardCenterRow {
    pub address: String,
    pub token_mint: String,
    pub auction_house: String,
    pub seller_reward_payout_basis_points: i16,
    pub mathematical_operand: PayoutOperation,
    pub payout_numeral: i16,
    pub bump: i16,
    pub slot: i64,
    pub write_version: i64,
}

/// A stored integer that does not fit the field it is shown in.
#[derive(Clone, Copy, PartialEq, Eq, Structural, Debug)]
pub struct TryFromIntError;

/// A decorator for a Metaplex Auction House
#[derive(Clone, Debug)]
pub struct RewardCenter {
    pub address: String,
    pub token_mint: String,
    pub auction_house: String,
    pub bump: i32,
    pub seller_reward_payout_basis_points: i32,
    pub mathematical_operand: PayoutOperation,
    pub payout_numeral: i32,
    pub slot: u64,
    pub write_version: u64,
}

impl RewardCenter {
    /// Converts a stored row. The slot and write version are never negative;
    /// a negative one is an error.
    pub fn try_from(row: RewardCenterRow) -> (r: Result<RewardCenter, TryFromIntError>)
        ensures
            r.is_ok() == (row.slot >= 0 && row.write_version >= 0),
            r matches Ok(c) ==> c.address == row.address && c.token_mint == row.token_mint
                && c.auction_house == row.auction_house && c.bump == row.bump as i32
                && c.seller_reward_payout_basis_points == row.seller_reward_payout_basis_points as i32
                && c.mathematical_operand == row.mathematical_operand && c.payout_numeral
                == row.payout_numeral as i32 && c.slot as int == row.slot as int
                && c.write_version as int == row.write_version as int,
    {
        if row.slot < 0 || row.write_version < 0 {
            return Err(TryFromIntError);
        }
        Ok(RewardCenter {
            address: row.address,
            token_mint: row.token_mint,
            auction_house: row.auction_house,
            bump: row.bump as i32,
            seller_reward_payout_basis_points: row.seller_reward_payout_basis_points as i32,
            mathematical_operand: row.mathematical_operand,
            payout_numeral: row.payout_numeral as i32,
            slot: row.slot as u64,
            write_version: row.write_version as u64,
        })
    }

    pub fn address(&self) -> (r: &str)
        ensures
            r@ == self.address@,
    {
        self.address.as_str()
    }

    pub fn token_mint(&self) -> (r: &str)
        ensures
            r@ == self.token_mint@,
    {
        self.token_mint.as_str()
    }

    pub fn auction_house(&self) -> (r: &str)
        ensures
            r@ == self.auction_house@,
    {
        self.auction_house.as_str()
    }

    pub fn bump(&self) -> (r: i32)
        ensures
            r == self.bump,
    {
        self.bump
    }

    pub fn seller_reward_payout_basis_points(&self) -> (r: i32)
        ensures
            r == self.seller_reward_payout_basis_points,
    {
        self.seller_reward_payout_basis_points
    }

    pub fn mathematical_operand(&self) -> (r: PayoutOperation)
        ensures
            r == self.mathematical_operand,
    {
        self.mathematical_operand
    }

    pub fn payout_numeral(&self) -> (r: i32)
        ensures
            r == self.payout_numeral,
    {
        self.payout_numeral
    }

    pub fn slot(&self) -> (r: u64)
        ensures
            r == self.slot,
    {
        self.slot
    }

    pub fn write_version(&self) -> (r: u64)
        ensures
            r == self.write_version,
    {
        self.write_version
    }
}

} // verus!
