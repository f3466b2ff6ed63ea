use vstd::prelude::*;

use crate::error::EbookError;
use crate::license::license_hash_of;
use crate::royalty::{author_share_of, co_author_share_of, BPS_DENOM};

verus! {

/// Refund window, in ledgers, that every newly published book receives.
pub const DEFAULT_REFUND_WINDOW: u64 = 100;

/// A published book as the accounting sees it.
pub struct BookView {
    pub author: Seq<u8>,
    pub co_author: Seq<u8>,
    pub co_author_bps: u32,
    pub content_hash: Seq<u8>,
    pub price: u32,
    pub refund_window: u64,
    pub sales: u32,
    pub revenue: u32,
}

/// What the store remembers of one reader and one book: the ledger of the
/// latest purchase, the license currently held (if any) and whether the
/// reader has been refunded for this book.
pub struct HoldingView {
    pub purchased_at: u64,
    pub license: Option<Seq<u8>>,
    pub refunded: bool,
}

/// The whole state of the store.
///
/// `books` maps a book id to the book; `royalties` maps a book id to the
/// accumulated `(author_total, co_author_total)`; `holdings` maps a
/// `(book_id, reader)` pair to what is recorded of that reader's purchase.
#[verifier::ext_equal]
pub struct KindleView {
    pub books: Map<Seq<u8>, BookView>,
    pub royalties: Map<Seq<u8>, (u64, u64)>,
    pub holdings: Map<(Seq<u8>, Seq<u8>), HoldingView>,
}

/// `a + b`, saturating at `u32::MAX`.
pub open spec fn sat_add_u32(a: u32, b: int) -> u32 {
    if a + b > u32::MAX {
        u32::MAX
    } else {
        (a + b) as u32
    }
}

/// `a - b`, saturating at zero.
pub open spec fn sat_sub_u32(a: u32, b: int) -> u32 {
    if a - b < 0 {
        0
    } else {
        (a - b) as u32
    }
}

/// `a + b`, saturating at `u64::MAX`.
pub open spec fn sat_add_u64(a: u64, b: int) -> u64 {
    if a + b > u64::MAX {
        u64::MAX
    } else {
        (a + b) as u64
    }
}

/// `a - b`, saturating at zero.
pub open spec fn sat_sub_u64(a: u64, b: int) -> u64 {
    if a - b < 0 {
        0
    } else {
        (a - b) as u64
    }
}

impl KindleView {
    /// Well-formedness of the abstract state: every book has a positive
    /// price and a co-author share of at most 100%, every book has a royalty account and nothing else
    /// has one, every holding refers to a published book, and only finitely
    /// many holdings exist.
    pub open spec fn wf(self) -> bool {
        &&& forall|id: Seq<u8>| #[trigger]
            self.books.contains_key(id) ==> self.books[id].co_author_bps <= BPS_DENOM
                && self.books[id].price > 0
        &&& self.royalties.dom() == self.books.dom()
        &&& forall|k: (Seq<u8>, Seq<u8>)| #[trigger]
            self.holdings.contains_key(k) ==> self.books.contains_key(k.0)
        &&& self.holdings.dom().finite()
    }

    /// Whether `reader` currently holds a license for `book_id`.
    pub open spec fn owns(self, reader: Seq<u8>, book_id: Seq<u8>) -> bool {
        &&& self.holdings.contains_key((book_id, reader))
        &&& self.holdings[(book_id, reader)].license is Some
    }

    /// Whether `reader` has been refunded for `book_id`.
    pub open spec fn was_refunded(self, reader: Seq<u8>, book_id: Seq<u8>) -> bool {
        &&& self.holdings.contains_key((book_id, reader))
        &&& self.holdings[(book_id, reader)].refunded
    }

    /// The royalty totals of a book; `(0, 0)` for an unknown book.
    pub open spec fn royalty_split(self, book_id: Seq<u8>) -> (u64, u64) {
        if self.royalties.contains_key(book_id) {
            self.royalties[book_id]
        } else {
            (0, 0)
        }
    }
}

/// The refund window a book is published with: the one the author chose,
/// or the default window when none was given.
pub open spec fn chosen_window(refund_window: Option<u64>) -> u64 {
    match refund_window {
        Some(w) => w,
        None => DEFAULT_REFUND_WINDOW,
    }
}

/// Outcome of publishing a book: the checks in the order the store makes
/// them, then the new book with no sales, no revenue, the chosen refund
/// window and empty royalty accounts.
pub open spec fn publish_outcome(
    s: KindleView,
    author: Seq<u8>,
    book_id: Seq<u8>,
    content_hash: Seq<u8>,
    price: u32,
    co_author: Seq<u8>,
    co_author_bps: u32,
    refund_window: Option<u64>,
) -> Result<KindleView, EbookError> {
    if price == 0 {
        Err(EbookError::ZeroPrice)
    } else if co_author_bps > BPS_DENOM {
        Err(EbookError::ShareTooLarge)
    } else if s.books.contains_key(book_id) {
        Err(EbookError::AlreadyPublished)
    } else {
        let book = BookView {
            author,
            co_author,
            co_author_bps,
            content_hash,
            price,
            refund_window: chosen_window(refund_window),
            sales: 0,
            revenue: 0,
        };
        Ok(
            KindleView {
                books: s.books.insert(book_id, book),
                royalties: s.royalties.insert(book_id, (0, 0)),
                holdings: s.holdings,
            },
        )
    }
}

/// Outcome of a purchase: the new state and the license hash issued.
///
/// The book must exist and the reader must not hold a license for it. The
/// sale is counted (saturating), its price is added to the revenue
/// (saturating) and split into the royalty accounts (saturating); the
/// purchase ledger is recorded and the license issued. Whether the reader
/// was refunded for the book before is kept.
pub open spec fn buy_outcome(
    s: KindleView,
    reader: Seq<u8>,
    book_id: Seq<u8>,
    sequence: u32,
    book_id_bits: u64,
    reader_bits: u64,
) -> Result<(KindleView, Seq<u8>), EbookError> {
    let key = (book_id, reader);
    if !s.books.contains_key(book_id) {
        Err(EbookError::BookNotFound)
    } else if s.owns(reader, book_id) {
        Err(EbookError::AlreadyOwned)
    } else {
        let b = s.books[book_id];
        let hash = license_hash_of(b.content_hash, sequence, book_id_bits, reader_bits);
        let r = s.royalty_split(book_id);
        let book = BookView {
            sales: sat_add_u32(b.sales, 1),
            revenue: sat_add_u32(b.revenue, b.price as int),
            ..b
        };
        let royalty = (
            sat_add_u64(r.0, author_share_of(b.price, b.co_author_bps)),
            sat_add_u64(r.1, co_author_share_of(b.price, b.co_author_bps)),
        );
        let holding = HoldingView {
            purchased_at: sequence as u64,
            license: Some(hash),
            refunded: s.was_refunded(reader, book_id),
        };
        Ok(
            (
                KindleView {
                    books: s.books.insert(book_id, book),
                    royalties: s.royalties.insert(book_id, royalty),
                    holdings: s.holdings.insert(key, holding),
                },
                hash,
            ),
        )
    }
}

/// Outcome of a refund request at ledger `now`.
///
/// The book must exist, the reader must hold a license for it, must not
/// have been refunded for it before, and at most `refund_window` ledgers may
/// have passed since the purchase. The license is revoked, the refund is
/// recorded, and the sale is taken back out of the sales count, the revenue
/// and the royalty accounts (all saturating at zero).
pub open spec fn refund_outcome(s: KindleView, reader: Seq<u8>, book_id: Seq<u8>, now: u32) -> Result<
    KindleView,
    EbookError,
> {
    let key = (book_id, reader);
    if !s.books.contains_key(book_id) {
        Err(EbookError::BookNotFound)
    } else if !s.owns(reader, book_id) {
        Err(EbookError::NotOwned)
    } else if s.holdings[key].refunded {
        Err(EbookError::AlreadyRefunded)
    } else if sat_sub_u64(now as u64, s.holdings[key].purchased_at as int)
        > s.books[book_id].refund_window {
        Err(EbookError::RefundWindowExpired)
    } else {
        let b = s.books[book_id];
        let r = s.royalty_split(book_id);
        let book = BookView {
            sales: sat_sub_u32(b.sales, 1),
            revenue: sat_sub_u32(b.revenue, b.price as int),
            ..b
        };
        let royalty = (
            sat_sub_u64(r.0, author_share_of(b.price, b.co_author_bps)),
            sat_sub_u64(r.1, co_author_share_of(b.price, b.co_author_bps)),
        );
        let holding = HoldingView { license: None, refunded: true, ..s.holdings[key] };
        Ok(
            KindleView {
                books: s.books.insert(book_id, book),
                royalties: s.royalties.insert(book_id, royalty),
                holdings: s.holdings.insert(key, holding),
            },
        )
    }
}

/// Outcome of asking for a book's sales count.
pub open spec fn sales_outcome(s: KindleView, book_id: Seq<u8>) -> Result<u32, EbookError> {
    if s.books.contains_key(book_id) {
        Ok(s.books[book_id].sales)
    } else {
        Err(EbookError::BookNotFound)
    }
}

/// Outcome of asking for a book's revenue.
pub open spec fn revenue_outcome(s: KindleView, book_id: Seq<u8>) -> Result<u32, EbookError> {
    if s.books.contains_key(book_id) {
        Ok(s.books[book_id].revenue)
    } else {
        Err(EbookError::BookNotFound)
    }
}

/// A request that can change the store.
pub enum Request {
    Publish {
        author: Seq<u8>,
        book_id: Seq<u8>,
        content_hash: Seq<u8>,
        price: u32,
        co_author: Seq<u8>,
        co_author_bps: u32,
        refund_window: Option<u64>,
    },
    Buy { reader: Seq<u8>, book_id: Seq<u8>, sequence: u32, book_id_bits: u64, reader_bits: u64 },
    Refund { reader: Seq<u8>, book_id: Seq<u8>, now: u32 },
}

/// Whether the store accepts `req` in state `s`.
pub open spec fn succeeds(s: KindleView, req: Request) -> bool {
    match req {
        Request::Publish {
            author,
            book_id,
            content_hash,
            price,
            co_author,
            co_author_bps,
            refund_window,
        } => publish_outcome(
            s,
            author,
            book_id,
            content_hash,
            price,
            co_author,
            co_author_bps,
            refund_window,
        ) is Ok,
        Request::Buy { reader, book_id, sequence, book_id_bits, reader_bits } => buy_outcome(
            s,
            reader,
            book_id,
            sequence,
            book_id_bits,
            reader_bits,
        ) is Ok,
        Request::Refund { reader, book_id, now } => refund_outcome(s, reader, book_id, now) is Ok,
    }
}

/// The state after `req`: the new state when the store accepts it, `s`
/// itself when it is refused.
pub open spec fn step(s: KindleView, req: Request) -> KindleView {
    match req {
        Request::Publish {
            author,
            book_id,
            content_hash,
            price,
            co_author,
            co_author_bps,
            refund_window,
        } => match publish_outcome(
            s,
            author,
            book_id,
            content_hash,
            price,
            co_author,
            co_author_bps,
            refund_window,
        ) {
            Ok(next) => next,
            Err(_) => s,
        },
        Request::Buy { reader, book_id, sequence, book_id_bits, reader_bits } => match buy_outcome(
            s,
            reader,
            book_id,
            sequence,
            book_id_bits,
            reader_bits,
        ) {
            Ok((next, _)) => next,
            Err(_) => s,
        },
        Request::Refund { reader, book_id, now } => match refund_outcome(s, reader, book_id, now) {
            Ok(next) => next,
            Err(_) => s,
        },
    }
}

/// The state after the requests `reqs`, in order, starting from `s`.
pub open spec fn run(s: KindleView, reqs: Seq<Request>) -> KindleView
    decreases reqs.len(),
{
    if reqs.len() == 0 {
        s
    } else {
        step(run(s, reqs.drop_last()), reqs.last())
    }
}

/// The state of a store with no books and no purchases.
pub open spec fn empty_store() -> KindleView {
    KindleView { books: Map::empty(), royalties: Map::empty(), holdings: Map::empty() }
}

} // verus!
