use ebook_kindle::error::EbookError;
use ebook_kindle::kindle::EbookKindle;
use ebook_kindle::license::compute_license_hash;
use ebook_kindle::royalty::{royalty_shares, BPS_DENOM};
use ebook_kindle::table::{Book, BookRecord, Holding};

fn id(s: &str) -> Vec<u8> {
    s.as_bytes().to_vec()
}

fn store_with_book(price: u32, bps: u32) -> EbookKindle {
    let mut store = EbookKindle::new();
    let r = store.publish_book(id("alice"), id("novel"), [7u8; 32], price, id("bob"), bps, None);
    assert_eq!(r, Ok(true));
    store
}

#[test]
fn published_book_starts_empty() {
    let store = store_with_book(1000, 2500);
    assert_eq!(store.get_sales(id("novel")), Ok(0));
    assert_eq!(store.get_revenue(id("novel")), Ok(0));
    assert_eq!(store.get_royalty_split(id("novel")), (0, 0));
    assert!(!store.verify_ownership(id("carol"), id("novel")));
}

#[test]
fn publish_rejects_zero_price() {
    let mut store = EbookKindle::new();
    let r = store.publish_book(id("alice"), id("novel"), [0u8; 32], 0, id("bob"), 20_000, None);
    assert_eq!(r, Err(EbookError::ZeroPrice));
    assert_eq!(store.get_sales(id("novel")), Err(EbookError::BookNotFound));
}

#[test]
fn publish_rejects_share_above_full() {
    let mut store = EbookKindle::new();
    let r = store.publish_book(id("alice"), id("novel"), [0u8; 32], 10, id("bob"), 10_001, None);
    assert_eq!(r, Err(EbookError::ShareTooLarge));
    let r = store.publish_book(id("alice"), id("novel"), [0u8; 32], 10, id("bob"), BPS_DENOM, None);
    assert_eq!(r, Ok(true));
}

#[test]
fn publish_twice_is_refused() {
    let mut store = store_with_book(1000, 2500);
    let r = store.publish_book(id("mallory"), id("novel"), [1u8; 32], 5, id("eve"), 0, None);
    assert_eq!(r, Err(EbookError::AlreadyPublished));
    assert_eq!(store.get_revenue(id("novel")), Ok(0));
    let r = store.publish_book(id("mallory"), id("poems"), [1u8; 32], 5, id("eve"), 0, None);
    assert_eq!(r, Ok(true));
}

#[test]
fn buy_counts_sale_and_splits_price() {
    let mut store = store_with_book(1000, 2500);
    let hash = store.buy_book(id("carol"), id("novel"), 42, 3, 4).unwrap();
    assert_eq!(hash, compute_license_hash(&[7u8; 32], 42, 3, 4));
    assert_eq!(store.get_sales(id("novel")), Ok(1));
    assert_eq!(store.get_revenue(id("novel")), Ok(1000));
    assert_eq!(store.get_royalty_split(id("novel")), (750, 250));
    assert!(store.verify_ownership(id("carol"), id("novel")));
    assert!(!store.verify_ownership(id("dave"), id("novel")));
    store.buy_book(id("dave"), id("novel"), 43, 3, 5).unwrap();
    assert_eq!(store.get_sales(id("novel")), Ok(2));
    assert_eq!(store.get_revenue(id("novel")), Ok(2000));
    assert_eq!(store.get_royalty_split(id("novel")), (1500, 500));
}

#[test]
fn buy_unknown_book_is_refused() {
    let mut store = store_with_book(1000, 2500);
    assert_eq!(store.buy_book(id("carol"), id("missing"), 1, 1, 1), Err(EbookError::BookNotFound));
    assert_eq!(store.get_royalty_split(id("missing")), (0, 0));
}

#[test]
fn buying_twice_is_refused() {
    let mut store = store_with_book(1000, 2500);
    store.buy_book(id("carol"), id("novel"), 1, 1, 1).unwrap();
    assert_eq!(store.buy_book(id("carol"), id("novel"), 2, 1, 1), Err(EbookError::AlreadyOwned));
    assert_eq!(store.get_sales(id("novel")), Ok(1));
}

#[test]
fn refund_takes_back_the_sale() {
    let mut store = store_with_book(1000, 2500);
    store.buy_book(id("dave"), id("novel"), 5, 3, 5).unwrap();
    store.buy_book(id("carol"), id("novel"), 10, 3, 4).unwrap();
    assert_eq!(store.refund(id("carol"), id("novel"), id("typo"), 110), Ok(true));
    assert!(!store.verify_ownership(id("carol"), id("novel")));
    assert!(store.verify_ownership(id("dave"), id("novel")));
    assert_eq!(store.get_sales(id("novel")), Ok(1));
    assert_eq!(store.get_revenue(id("novel")), Ok(1000));
    assert_eq!(store.get_royalty_split(id("novel")), (750, 250));
}

#[test]
fn refund_window_is_inclusive() {
    let mut store = store_with_book(1000, 2500);
    store.buy_book(id("carol"), id("novel"), 10, 3, 4).unwrap();
    assert_eq!(store.refund(id("carol"), id("novel"), id("late"), 111), Err(EbookError::RefundWindowExpired));
    assert!(store.verify_ownership(id("carol"), id("novel")));
    assert_eq!(store.refund(id("carol"), id("novel"), id("ok"), 110), Ok(true));
}

#[test]
fn refund_before_purchase_ledger_is_allowed() {
    let mut store = store_with_book(1000, 0);
    store.buy_book(id("carol"), id("novel"), 500, 3, 4).unwrap();
    assert_eq!(store.refund(id("carol"), id("novel"), id("early"), 1), Ok(true));
    assert_eq!(store.get_royalty_split(id("novel")), (0, 0));
}

#[test]
fn refund_errors() {
    let mut store = store_with_book(1000, 2500);
    assert_eq!(store.refund(id("carol"), id("missing"), id("r"), 0), Err(EbookError::BookNotFound));
    assert_eq!(store.refund(id("carol"), id("novel"), id("r"), 0), Err(EbookError::NotOwned));
    store.buy_book(id("carol"), id("novel"), 0, 3, 4).unwrap();
    assert_eq!(store.refund(id("carol"), id("novel"), id("r"), 0), Ok(true));
    assert_eq!(store.refund(id("carol"), id("novel"), id("r"), 0), Err(EbookError::NotOwned));
    store.buy_book(id("carol"), id("novel"), 1, 3, 4).unwrap();
    assert!(store.verify_ownership(id("carol"), id("novel")));
    assert_eq!(store.refund(id("carol"), id("novel"), id("r"), 1), Err(EbookError::AlreadyRefunded));
    assert_eq!(store.get_sales(id("novel")), Ok(1));
}

#[test]
fn revenue_saturates_and_refund_saturates_at_zero() {
    let mut store = store_with_book(u32::MAX, 10_000);
    store.buy_book(id("carol"), id("novel"), 0, 3, 4).unwrap();
    store.buy_book(id("dave"), id("novel"), 0, 3, 5).unwrap();
    assert_eq!(store.get_sales(id("novel")), Ok(2));
    assert_eq!(store.get_revenue(id("novel")), Ok(u32::MAX));
    assert_eq!(store.get_royalty_split(id("novel")), (0, 2 * (u32::MAX as u64)));
    assert_eq!(store.refund(id("dave"), id("novel"), id("r"), 0), Ok(true));
    assert_eq!(store.get_sales(id("novel")), Ok(1));
    assert_eq!(store.get_revenue(id("novel")), Ok(0));
    assert_eq!(store.get_royalty_split(id("novel")), (0, u32::MAX as u64));
}

#[test]
fn royalty_shares_round_down_for_the_co_author() {
    assert_eq!(royalty_shares(1000, 2500), (750, 250));
    assert_eq!(royalty_shares(7, 5000), (4, 3));
    assert_eq!(royalty_shares(3, 3333), (3, 0));
    assert_eq!(royalty_shares(u32::MAX, 10_000), (0, u32::MAX as u64));
    assert_eq!(royalty_shares(u32::MAX, 0), (u32::MAX as u64, 0));
    let (a, c) = royalty_shares(12345, 6789);
    assert_eq!(a + c, 12345);
}

#[test]
fn license_hash_exact_values() {
    assert_eq!(compute_license_hash(&[0u8; 32], 0, 0, 0), [0u8; 32]);
    let h = compute_license_hash(&[0xffu8; 32], 0x0102_0304, 0x10, 0x20);
    assert_eq!(
        h,
        [
            32, 0, 0, 0, 0, 0, 0, 0, 16, 0, 0, 0, 0, 0, 0, 0, 4, 3, 2, 1, 255, 255, 255, 255, 255,
            255, 255, 255, 0, 0, 0, 0
        ]
    );
    let mut content = [0u8; 32];
    for (i, b) in content.iter_mut().enumerate() {
        *b = 100 + i as u8;
    }
    let h = compute_license_hash(&content, 7, 0x1122_3344_5566_7788, 0x99aa_bbcc_ddee_ff00);
    assert_eq!(
        h,
        [
            0, 255, 238, 221, 204, 187, 170, 153, 136, 119, 102, 85, 68, 51, 34, 17, 7, 0, 0, 0,
            104, 105, 106, 107, 156, 157, 158, 159, 20, 20, 20, 20
        ]
    );
}

#[test]
fn license_hash_separates_purchases() {
    let a = compute_license_hash(&[9u8; 32], 77, 0x55, 0x100);
    assert_eq!(a, compute_license_hash(&[9u8; 32], 77, 0x55, 0x100));
    assert_ne!(a, compute_license_hash(&[9u8; 32], 77, 0x55, 0x101));
    assert_ne!(a, compute_license_hash(&[9u8; 32], 77, 0x56, 0x100));
    assert_ne!(a, compute_license_hash(&[9u8; 32], 78, 0x55, 0x100));
    assert_ne!(compute_license_hash(&[0u8; 32], 0, 0, 0), compute_license_hash(&[0u8; 32], 0, 0, 0x8000));
    let mut other = [9u8; 32];
    other[5] = 10;
    assert_ne!(a, compute_license_hash(&other, 77, 0x55, 0x100));
}

#[test]
fn two_readers_in_one_ledger_get_different_licenses() {
    let mut store = store_with_book(1000, 2500);
    let first = store.buy_book(id("carol"), id("novel"), 9, 0x4d, 0x4d).unwrap();
    let second = store.buy_book(id("dave"), id("novel"), 9, 0x4d, 0x804d).unwrap();
    assert_ne!(first, second);
}

#[test]
fn author_chooses_the_refund_window() {
    let mut store = EbookKindle::new();
    let r = store.publish_book(id("alice"), id("short"), [0u8; 32], 10, id("bob"), 0, Some(5));
    assert_eq!(r, Ok(true));
    store.buy_book(id("carol"), id("short"), 100, 1, 2).unwrap();
    assert_eq!(store.refund(id("carol"), id("short"), id("r"), 106), Err(EbookError::RefundWindowExpired));
    assert_eq!(store.refund(id("carol"), id("short"), id("r"), 105), Ok(true));
}

#[test]
fn error_messages() {
    assert_eq!(EbookError::ZeroPrice.message(), "price must be greater than zero");
    assert_eq!(EbookError::ShareTooLarge.message(), "co_author_bps must be <= 10000");
    assert_eq!(EbookError::AlreadyPublished.message(), "book already published");
    assert_eq!(EbookError::BookNotFound.message(), "book not found");
    assert_eq!(EbookError::AlreadyOwned.message(), "reader already owns a license for this book");
    assert_eq!(EbookError::NotOwned.message(), "reader does not own a license for this book");
    assert_eq!(EbookError::AlreadyRefunded.message(), "book already refunded for this reader");
    assert_eq!(EbookError::RefundWindowExpired.message(), "refund window has expired");
}

fn record(book: &str, price: u32, bps: u32) -> BookRecord {
    BookRecord {
        id: id(book),
        book: Book {
            author: id("alice"),
            co_author: id("bob"),
            co_author_bps: bps,
            content_hash: [3u8; 32],
            price,
            refund_window: 100,
            sales: 1,
            revenue: price,
        },
        author_royalty: 6,
        co_author_royalty: 4,
    }
}

fn holding(book: &str, reader: &str) -> Holding {
    Holding {
        book_id: id(book),
        reader: id(reader),
        purchased_at: 50,
        license: Some([1u8; 32]),
        refunded: false,
    }
}

#[test]
fn records_round_trip() {
    let store = EbookKindle::from_records(vec![record("novel", 10, 4000)], vec![holding("novel", "carol")])
        .unwrap();
    assert_eq!(store.get_sales(id("novel")), Ok(1));
    assert_eq!(store.get_royalty_split(id("novel")), (6, 4));
    assert!(store.verify_ownership(id("carol"), id("novel")));
    let (books, holdings) = store.into_records();
    assert_eq!(books.len(), 1);
    assert_eq!(holdings.len(), 1);
    let mut store = EbookKindle::from_records(books, holdings).unwrap();
    assert_eq!(store.refund(id("carol"), id("novel"), id("r"), 150), Ok(true));
    assert_eq!(store.get_sales(id("novel")), Ok(0));
    assert_eq!(store.get_royalty_split(id("novel")), (0, 0));
}

#[test]
fn invalid_records_are_refused() {
    assert!(EbookKindle::from_records(vec![record("a", 10, 0), record("a", 20, 0)], vec![]).is_none());
    assert!(EbookKindle::from_records(vec![record("a", 0, 0)], vec![]).is_none());
    assert!(EbookKindle::from_records(vec![record("a", 10, 10_001)], vec![]).is_none());
    assert!(EbookKindle::from_records(vec![record("a", 10, 0)], vec![holding("b", "carol")]).is_none());
    assert!(EbookKindle::from_records(
        vec![record("a", 10, 0)],
        vec![holding("a", "carol"), holding("a", "carol")]
    )
    .is_none());
    assert!(EbookKindle::from_records(
        vec![record("a", 10, 0), record("b", 10, 0)],
        vec![holding("a", "carol"), holding("b", "carol")]
    )
    .is_some());
}
