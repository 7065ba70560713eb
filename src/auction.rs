//! The listing row stored for a Metaplex auction, computed from the decoded
//! auction accounts.
use vstd::prelude::*;

verus! {

/// The text that `std::str::from_utf8` decodes from `b`; `None` where `b` is
/// not UTF-8.
pub uninterp spec fn utf8_text(b: Seq<u8>) -> Option<Seq<char>>;

/// Relies on `std::str::from_utf8`: the text of UTF-8 bytes, an error for
/// any other bytes.
#[verifier::external_body]
fn decode_utf8(b: &[u8]) -> (r: Option<String>)
    ensures
        r.is_some() == utf8_text(b@).is_some(),
        r matches Some(s) ==> Some(s@) == utf8_text(b@),
{
    std::str::from_utf8(b).ok().map(str::to_owned)
}

/// The lowest price an auction accepts. A minimum price holds the first
/// word of the on-chain price.
#[derive(Clone, Copy, PartialEq, Eq, Structural, Debug)]
pub enum PriceFloor {
    NoFloor,
    MinimumPrice(u64),
    BlindedPrice,
}

/// How an auction takes bids.
#[derive(Clone, Copy, PartialEq, Eq, Structural, Debug)]
pub enum BidState {
    /// Bids in competition; `bids` is how many stand.
    EnglishAuction { bids: usize },
    OpenEdition,
}

/// The fields of an auction account that a listing reads.
#[derive(Clone, Copy, PartialEq, Eq, Structural, Debug)]
pub struct AuctionData {
    pub ended_at: Option<i64>,
    pub last_bid: Option<i64>,
    pub end_auction_gap: Option<i64>,
    pub price_floor: PriceFloor,
    pub bid_state: BidState,
}

/// The fields of an extended auction account that a listing reads.
#[derive(Clone, PartialEq, Eq, Debug)]
pub struct AuctionDataExtended {
    pub gap_tick_size_percentage: Option<u8>,
    pub instant_sale_price: Option<u64>,
    pub name: Option<Vec<u8>>,
}

/// A listing row; times are seconds since the Unix epoch.
#[derive(Clone, PartialEq, Eq, Debug)]
pub struct Listing {
    pub ends_at: Option<i64>,
    pub created_at: i64,
    pub ended: bool,
    pub last_bid: Option<i64>,
    pub end_auction_gap: Option<i64>,
    pub price_floor: Option<i64>,
    pub total_uncancelled_bids: Option<i32>,
    pub gap_tick_size: Option<i32>,
    pub instant_sale_price: Option<i64>,
    pub name: String,
}

/// Why an auction cannot be stored as a listing.
#[derive(Clone, Copy, PartialEq, Eq, Structural, Debug)]
pub enum ListingError {
    PriceFloorTooHigh,
    BidCountTooHigh,
    InstantSalePriceTooHigh,
    BadName,
}

pub const I64_MAX: u64 = 0x7fff_ffff_ffff_ffff;

pub const I32_MAX: usize = 0x7fff_ffff;

/// The stored price floor: none, the minimum price, or -1 for a blinded one.
pub open spec fn price_floor_spec(p: PriceFloor) -> Result<Option<i64>, ListingError> {
    match p {
        PriceFloor::NoFloor => Ok(None),
        PriceFloor::MinimumPrice(v) => if v <= I64_MAX {
            Ok(Some(v as i64))
        } else {
            Err(ListingError::PriceFloorTooHigh)
        },
        PriceFloor::BlindedPrice => Ok(Some(-1i64)),
    }
}

/// The bids counted for a listing: none for an instant sale or an open
/// edition, else the standing bids of the English auction.
pub open spec fn count_bids_spec(instant_sale_price: Option<u64>, bid_state: BidState) -> Option<
    usize,
> {
    if instant_sale_price.is_some() {
        None
    } else {
        match bid_state {
            BidState::EnglishAuction { bids } => Some(bids),
            BidState::OpenEdition => None,
        }
    }
}

/// `b` without its trailing NUL bytes.
pub open spec fn nul_trimmed(b: Seq<u8>) -> Seq<u8>
    decreases b.len(),
{
    if b.len() > 0 && b.last() == 0 {
        nul_trimmed(b.drop_last())
    } else {
        b
    }
}

pub fn price_floor_value(p: PriceFloor) -> (r: Result<Option<i64>, ListingError>)
    ensures
        r == price_floor_spec(p),
{
    match p {
        PriceFloor::NoFloor => Ok(None),
        PriceFloor::MinimumPrice(v) => if v <= I64_MAX {
            Ok(Some(v as i64))
        } else {
            Err(ListingError::PriceFloorTooHigh)
        },
        PriceFloor::BlindedPrice => Ok(Some(-1)),
    }
}

pub fn count_bids(instant_sale_price: Option<u64>, bid_state: BidState) -> (r: Option<usize>)
    ensures
        r == count_bids_spec(instant_sale_price, bid_state),
{
    if instant_sale_price.is_some() {
        return None;
    }
    match bid_state {
        BidState::EnglishAuction { bids } => Some(bids),
        BidState::OpenEdition => None,
    }
}

/// Drops the trailing NUL bytes of `b`.
pub fn trim_nul(b: &Vec<u8>) -> (r: Vec<u8>)
    ensures
        r@ == nul_trimmed(b@),
{
    let mut k: usize = b.len();
    assert(b@.subrange(0, k as int) =~= b@);
    while k > 0 && b[k - 1] == 0
        invariant
            k <= b@.len(),
            nul_trimmed(b@) == nul_trimmed(b@.subrange(0, k as int)),
        decreases k,
    {
        assert(b@.subrange(0, k as int).drop_last() =~= b@.subrange(0, k - 1));
        k = k - 1;
    }
    assert(nul_trimmed(b@) == b@.subrange(0, k as int));
    let mut out: Vec<u8> = Vec::new();
    let mut i: usize = 0;
    assert(b@.subrange(0, 0) =~= Seq::<u8>::empty());
    while i < k
        invariant
            i <= k <= b@.len(),
            out@ == b@.subrange(0, i as int),
        decreases k - i,
    {
        out.push(b[i]);
        assert(out@ =~= b@.subrange(0, i + 1));
        i = i + 1;
    }
    out
}

/// The auction's name: empty when it has none, else its UTF-8 text without
/// the NUL padding. The padding is cut before decoding, which accepts and
/// yields the same as decoding first: a NUL byte only ever encodes a NUL.
pub fn listing_name(name: &Option<Vec<u8>>) -> (r: Result<String, ListingError>)
    ensures
        name.is_none() ==> (r matches Ok(s) && s@.len() == 0),
        name matches Some(b) ==> match utf8_text(nul_trimmed(b@)) {
            Some(t) => (r matches Ok(s) && s@ == t),
            None => r == Err::<String, ListingError>(ListingError::BadName),
        },
{
    match name {
        None => Ok(String::new()),
        Some(b) => {
            let trimmed = trim_nul(b);
            match decode_utf8(trimmed.as_slice()) {
                Some(s) => Ok(s),
                None => Err(ListingError::BadName),
            }
        },
    }
}

/// Computes the listing row of an auction. `ended` is whether the auction
/// had ended when it was read, and `created_at` when it was created. The
/// first of these fails: a price floor, a bid count or an instant-sale price
/// that its column cannot hold, then a name that is not UTF-8.
pub fn process(auction: &AuctionData, ext: &AuctionDataExtended, ended: bool, created_at: i64) -> (r:
    Result<Listing, ListingError>)
    ensures
        price_floor_spec(auction.price_floor) is Err ==> r == Err::<Listing, ListingError>(
            ListingError::PriceFloorTooHigh,
        ),
        price_floor_spec(auction.price_floor) is Ok && (count_bids_spec(
            ext.instant_sale_price,
            auction.bid_state,
        ) matches Some(n) && n > I32_MAX) ==> r == Err::<Listing, ListingError>(
            ListingError::BidCountTooHigh,
        ),
        r matches Ok(row) ==> {
            &&& row.ends_at == auction.ended_at
            &&& row.created_at == created_at
            &&& row.ended == ended
            &&& row.last_bid == auction.last_bid
            &&& row.end_auction_gap == auction.end_auction_gap
            &&& Ok::<Option<i64>, ListingError>(row.price_floor) == price_floor_spec(auction.price_floor)
            &&& match count_bids_spec(ext.instant_sale_price, auction.bid_state) {
                Some(n) => row.total_uncancelled_bids == Some(n as i32) && n <= I32_MAX,
                None => row.total_uncancelled_bids.is_none(),
            }
            &&& match ext.gap_tick_size_percentage {
                Some(g) => row.gap_tick_size == Some(g as i32),
                None => row.gap_tick_size.is_none(),
            }
            &&& match ext.instant_sale_price {
                Some(p) => row.instant_sale_price == Some(p as i64) && p <= I64_MAX,
                None => row.instant_sale_price.is_none(),
            }
            &&& match ext.name {
                Some(b) => utf8_text(nul_trimmed(b@)) == Some(row.name@),
                None => row.name@.len() == 0,
            }
        },
        r.is_ok() == (price_floor_spec(auction.price_floor) is Ok && match count_bids_spec(
            ext.instant_sale_price,
            auction.bid_state,
        ) {
            Some(n) => n <= I32_MAX,
            None => true,
        } && match ext.instant_sale_price {
            Some(p) => p <= I64_MAX,
            None => true,
        } && match ext.name {
            Some(b) => utf8_text(nul_trimmed(b@)).is_some(),
            None => true,
        }),
{
    let price_floor = match price_floor_value(auction.price_floor) {
        Ok(p) => p,
        Err(e) => return Err(e),
    };
    let total_uncancelled_bids = match count_bids(ext.instant_sale_price, auction.bid_state) {
        Some(n) => if n <= I32_MAX {
            Some(n as i32)
        } else {
            return Err(ListingError::BidCountTooHigh);
        },
        None => None,
    };
    let gap_tick_size = match ext.gap_tick_size_percentage {
        Some(g) => Some(g as i32),
        None => None,
    };
    let instant_sale_price = match ext.instant_sale_price {
        Some(p) => if p <= I64_MAX {
            Some(p as i64)
        } else {
            return Err(ListingError::InstantSalePriceTooHigh);
        },
        None => None,
    };
    let name = match listing_name(&ext.name) {
        Ok(s) => s,
        Err(e) => return Err(e),
    };
    Ok(Listing {
        ends_at: auction.ended_at,
        created_at,
        ended,
        last_bid: auction.last_bid,
        end_auction_gap: auction.end_auction_gap,
        price_floor,
        total_uncancelled_bids,
        gap_tick_size,
        instant_sale_price,
        name,
    })
}

} // verus!
