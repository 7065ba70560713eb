use holaplex_indexer::auction::{
    count_bids, listing_name, price_floor_value, process, trim_nul, AuctionData,
    AuctionDataExtended, BidState, Listing, ListingError, PriceFloor,
};

fn auction(price_floor: PriceFloor, bid_state: BidState) -> AuctionData {
    AuctionData {
        ended_at: Some(1_650_000_000),
        last_bid: Some(1_640_000_000),
        end_auction_gap: None,
        price_floor,
        bid_state,
    }
}

fn ext(instant_sale_price: Option<u64>, name: Option<Vec<u8>>) -> AuctionDataExtended {
    AuctionDataExtended { gap_tick_size_percentage: Some(5), instant_sale_price, name }
}

#[test]
fn price_floor_is_stored_as_signed() {
    assert_eq!(price_floor_value(PriceFloor::NoFloor), Ok(None));
    assert_eq!(price_floor_value(PriceFloor::MinimumPrice(250)), Ok(Some(250)));
    assert_eq!(price_floor_value(PriceFloor::BlindedPrice), Ok(Some(-1)));
    assert_eq!(
        price_floor_value(PriceFloor::MinimumPrice(i64::MAX as u64)),
        Ok(Some(i64::MAX))
    );
    assert_eq!(
        price_floor_value(PriceFloor::MinimumPrice(i64::MAX as u64 + 1)),
        Err(ListingError::PriceFloorTooHigh)
    );
}

#[test]
fn bids_count_only_for_english_auctions_without_instant_sale() {
    assert_eq!(count_bids(None, BidState::EnglishAuction { bids: 3 }), Some(3));
    assert_eq!(count_bids(Some(10), BidState::EnglishAuction { bids: 3 }), None);
    assert_eq!(count_bids(None, BidState::OpenEdition), None);
}

#[test]
fn name_loses_nul_padding() {
    assert_eq!(trim_nul(&vec![b'a', 0, b'b', 0, 0]), vec![b'a', 0, b'b']);
    assert_eq!(trim_nul(&vec![0, 0]), Vec::<u8>::new());
    assert_eq!(listing_name(&Some(b"Drop\0\0\0".to_vec())), Ok("Drop".to_string()));
    assert_eq!(listing_name(&None), Ok(String::new()));
    assert_eq!(listing_name(&Some(vec![0xff, 0xfe, 0])), Err(ListingError::BadName));
    assert_eq!(
        listing_name(&Some("caf\u{e9}\0".as_bytes().to_vec())),
        Ok("caf\u{e9}".to_string())
    );
}

#[test]
fn process_builds_listing_row() {
    let a = auction(PriceFloor::MinimumPrice(100), BidState::EnglishAuction { bids: 2 });
    let e = ext(None, Some(b"Auction\0".to_vec()));
    let row = process(&a, &e, false, 1_600_000_000).unwrap();
    assert_eq!(
        row,
        Listing {
            ends_at: Some(1_650_000_000),
            created_at: 1_600_000_000,
            ended: false,
            last_bid: Some(1_640_000_000),
            end_auction_gap: None,
            price_floor: Some(100),
            total_uncancelled_bids: Some(2),
            gap_tick_size: Some(5),
            instant_sale_price: None,
            name: "Auction".to_string(),
        }
    );
}

#[test]
fn process_reports_first_failure() {
    let a = auction(PriceFloor::MinimumPrice(u64::MAX), BidState::EnglishAuction { bids: 1 });
    let e = ext(Some(u64::MAX), Some(vec![0xff]));
    assert_eq!(process(&a, &e, true, 0), Err(ListingError::PriceFloorTooHigh));
    let a = auction(PriceFloor::BlindedPrice, BidState::OpenEdition);
    assert_eq!(process(&a, &e, true, 0), Err(ListingError::InstantSalePriceTooHigh));
    let e = ext(Some(7), Some(vec![0xff]));
    assert_eq!(process(&a, &e, true, 0), Err(ListingError::BadName));
    let big = auction(PriceFloor::NoFloor, BidState::EnglishAuction { bids: 1 << 31 });
    assert_eq!(process(&big, &ext(None, None), true, 0), Err(ListingError::BidCountTooHigh));
}

#[test]
fn instant_sale_listing_has_no_bid_count() {
    let a = auction(PriceFloor::BlindedPrice, BidState::EnglishAuction { bids: 4 });
    let row = process(&a, &ext(Some(9), None), true, 5).unwrap();
    assert_eq!(row.total_uncancelled_bids, None);
    assert_eq!(row.instant_sale_price, Some(9));
    assert_eq!(row.price_floor, Some(-1));
    assert_eq!(row.name, "");
    assert!(row.ended);
}
