use vstd::prelude::*;

use crate::error::EbookError;
use crate::license::compute_license_hash;
use crate::model::{
    buy_outcome, empty_store, publish_outcome, refund_outcome, revenue_outcome, sales_outcome, KindleView,
    DEFAULT_REFUND_WINDOW,
};
use crate::royalty::{royalty_shares, BPS_DENOM};
use crate::table::{
    book_ids_unique, find_book, find_holding, has_book, holding_key, holding_keys_unique,
    lemma_book_at, lemma_books_push, lemma_books_update, lemma_holding_at, lemma_holdings_finite,
    lemma_holdings_push, lemma_holdings_update, lemma_records_valid, records_valid, same_bytes,
    view_of, Book, BookRecord, Holding,
};

verus! {

/// The ebook store: every published book with its accounting, and every
/// reader's purchase record.
pub struct EbookKindle {
    books: Vec<BookRecord>,
    holdings: Vec<Holding>,
}

impl View for EbookKindle {
    type V = KindleView;

    closed spec fn view(&self) -> KindleView {
        view_of(self.books@, self.holdings@)
    }
}

impl EbookKindle {
    /// The store's representation is sound: ids and `(book, reader)` pairs
    /// occur once each, and its abstract state is well-formed.
    pub closed spec fn wf(&self) -> bool {
        &&& book_ids_unique(self.books@)
        &&& holding_keys_unique(self.holdings@)
        &&& self@.wf()
    }

    /// A store with no books and no purchases.
    pub fn new() -> (store: Self)
        ensures
            store.wf(),
            store@ == empty_store(),
    {
        let store = EbookKindle { books: Vec::new(), holdings: Vec::new() };
        proof {
            assert(store@.books =~= Map::empty());
            assert(store@.royalties =~= Map::empty());
            assert(store@.holdings =~= Map::empty());
        }
        store
    }

    /// Publishes a new book under `book_id`, by `author`, with the given
    /// content hash, price and co-author share, and the given refund window
    /// (the default window when `None`). Returns `Ok(true)` on success.
    pub fn publish_book(
        &mut self,
        author: Vec<u8>,
        book_id: Vec<u8>,
        content_hash: [u8; 32],
        price: u32,
        co_author: Vec<u8>,
        co_author_bps: u32,
        refund_window: Option<u64>,
    ) -> (result: Result<bool, EbookError>)
        requires
            old(self).wf(),
        ensures
            final(self).wf(),
            match publish_outcome(
                old(self)@,
                author@,
                book_id@,
                content_hash@,
                price,
                co_author@,
                co_author_bps,
                refund_window,
            ) {
                Ok(next) => result == Ok::<bool, EbookError>(true) && final(self)@ == next,
                Err(e) => result == Err::<bool, EbookError>(e) && final(self)@ == old(self)@,
            },
    {
        if price == 0 {
            return Err(EbookError::ZeroPrice);
        }
        if co_author_bps > BPS_DENOM {
            return Err(EbookError::ShareTooLarge);
        }
        if find_book(&self.books, &book_id).is_some() {
            proof {
                let i = choose|i: int|
                    0 <= i < self.books@.len() && self.books@[i].id@ == book_id@;
                lemma_book_at(self.books@, i);
            }
            return Err(EbookError::AlreadyPublished);
        }
        let record = BookRecord {
            id: book_id,
            book: Book {
                author,
                co_author,
                co_author_bps,
                content_hash,
                price,
                refund_window: match refund_window {
                    Some(w) => w,
                    None => DEFAULT_REFUND_WINDOW,
                },
                sales: 0,
                revenue: 0,
            },
            author_royalty: 0,
            co_author_royalty: 0,
        };
        proof {
            lemma_books_push(self.books@, record);
        }
        self.books.push(record);
        proof {
            lemma_holdings_finite(self.holdings@);
        }
        Ok(true)
    }

    /// Sells a copy of `book_id` to `reader` at ledger `sequence`, and
    /// returns the license hash issued for it. `book_id_bits` and
    /// `reader_bits` are the 64-bit host values of the book id and of the
    /// reader that the license hash mixes in.
    pub fn buy_book(
        &mut self,
        reader: Vec<u8>,
        book_id: Vec<u8>,
        sequence: u32,
        book_id_bits: u64,
        reader_bits: u64,
    ) -> (result: Result<[u8; 32], EbookError>)
        requires
            old(self).wf(),
        ensures
            final(self).wf(),
            match buy_outcome(old(self)@, reader@, book_id@, sequence, book_id_bits, reader_bits) {
                Ok((next, hash)) => result matches Ok(h) && h@ == hash && final(self)@ == next,
                Err(e) => result == Err::<[u8; 32], EbookError>(e) && final(self)@ == old(self)@,
            },
    {
        let ghost old_view = self@;
        let bi = match find_book(&self.books, &book_id) {
            Some(i) => i,
            None => {
                return Err(EbookError::BookNotFound);
            },
        };
        proof {
            lemma_book_at(self.books@, bi as int);
        }
        let content_hash: [u8; 32] = self.books[bi].book.content_hash;
        let license_hash = compute_license_hash(&content_hash, sequence, book_id_bits, reader_bits);
        let hi = find_holding(&self.holdings, &book_id, &reader);
        match hi {
            Some(j) => {
                proof {
                    lemma_holding_at(self.holdings@, j as int);
                }
                if self.holdings[j].license.is_some() {
                    return Err(EbookError::AlreadyOwned);
                }
            },
            None => {},
        }
        let price: u32 = self.books[bi].book.price;
        let bps: u32 = self.books[bi].book.co_author_bps;
        let (author_share, co_author_share) = royalty_shares(price, bps);
        let ghost old_books = self.books@;
        let ghost old_holdings = self.holdings@;
        let sales: u32 = self.books[bi].book.sales.saturating_add(1);
        let revenue: u32 = self.books[bi].book.revenue.saturating_add(price);
        let author_royalty: u64 = self.books[bi].author_royalty.saturating_add(author_share);
        let co_author_royalty: u64 = self.books[bi].co_author_royalty.saturating_add(
            co_author_share,
        );
        self.books[bi].book.sales = sales;
        self.books[bi].book.revenue = revenue;
        self.books[bi].author_royalty = author_royalty;
        self.books[bi].co_author_royalty = co_author_royalty;
        proof {
            lemma_books_update(old_books, bi as int, self.books@[bi as int]);
            assert(self.books@ == old_books.update(bi as int, self.books@[bi as int]));
        }
        match hi {
            Some(j) => {
                self.holdings[j].purchased_at = sequence as u64;
                self.holdings[j].license = Some(license_hash);
                proof {
                    lemma_holdings_update(old_holdings, j as int, self.holdings@[j as int]);
                    assert(self.holdings@ == old_holdings.update(
                        j as int,
                        self.holdings@[j as int],
                    ));
                }
            },
            None => {
                let holding = Holding {
                    book_id,
                    reader,
                    purchased_at: sequence as u64,
                    license: Some(license_hash),
                    refunded: false,
                };
                proof {
                    lemma_holdings_push(old_holdings, holding);
                }
                self.holdings.push(holding);
            },
        }
        proof {
            lemma_holdings_finite(self.holdings@);
            let next = buy_outcome(old_view, reader@, book_id@, sequence, book_id_bits, reader_bits);
            assert(next matches Ok((n, h)) && h == license_hash@ && self@ =~= n);
        }
        Ok(license_hash)
    }

    /// Refunds `reader`'s purchase of `book_id` at ledger `now`. The reason
    /// given is not recorded. Returns `Ok(true)` on success.
    pub fn refund(&mut self, reader: Vec<u8>, book_id: Vec<u8>, reason: Vec<u8>, now: u32) -> (result:
        Result<bool, EbookError>)
        requires
            old(self).wf(),
        ensures
            final(self).wf(),
            match refund_outcome(old(self)@, reader@, book_id@, now) {
                Ok(next) => result == Ok::<bool, EbookError>(true) && final(self)@ == next,
                Err(e) => result == Err::<bool, EbookError>(e) && final(self)@ == old(self)@,
            },
    {
        let _ = reason;
        let ghost old_view = self@;
        let bi = match find_book(&self.books, &book_id) {
            Some(i) => i,
            None => {
                return Err(EbookError::BookNotFound);
            },
        };
        proof {
            lemma_book_at(self.books@, bi as int);
        }
        let j = match find_holding(&self.holdings, &book_id, &reader) {
            Some(j) => j,
            None => {
                return Err(EbookError::NotOwned);
            },
        };
        proof {
            lemma_holding_at(self.holdings@, j as int);
        }
        if self.holdings[j].license.is_none() {
            return Err(EbookError::NotOwned);
        }
        if self.holdings[j].refunded {
            return Err(EbookError::AlreadyRefunded);
        }
        let purchase_ledger: u64 = self.holdings[j].purchased_at;
        let elapsed: u64 = (now as u64).saturating_sub(purchase_ledger);
        if elapsed > self.books[bi].book.refund_window {
            return Err(EbookError::RefundWindowExpired);
        }
        let ghost old_holdings = self.holdings@;
        self.holdings[j].refunded = true;
        self.holdings[j].license = None;
        proof {
            lemma_holdings_update(old_holdings, j as int, self.holdings@[j as int]);
            assert(self.holdings@ == old_holdings.update(j as int, self.holdings@[j as int]));
        }
        let price: u32 = self.books[bi].book.price;
        let bps: u32 = self.books[bi].book.co_author_bps;
        let (author_share, co_author_share) = royalty_shares(price, bps);
        let ghost old_books = self.books@;
        let sales: u32 = self.books[bi].book.sales.saturating_sub(1);
        let revenue: u32 = self.books[bi].book.revenue.saturating_sub(price);
        let author_royalty: u64 = self.books[bi].author_royalty.saturating_sub(author_share);
        let co_author_royalty: u64 = self.books[bi].co_author_royalty.saturating_sub(
            co_author_share,
        );
        self.books[bi].book.sales = sales;
        self.books[bi].book.revenue = revenue;
        self.books[bi].author_royalty = author_royalty;
        self.books[bi].co_author_royalty = co_author_royalty;
        proof {
            lemma_books_update(old_books, bi as int, self.books@[bi as int]);
            assert(self.books@ == old_books.update(bi as int, self.books@[bi as int]));
            lemma_holdings_finite(self.holdings@);
            let next = refund_outcome(old_view, reader@, book_id@, now);
            assert(next matches Ok(n) && self@ =~= n);
        }
        Ok(true)
    }

    /// Whether `reader` currently holds a license for `book_id`.
    pub fn verify_ownership(&self, reader: Vec<u8>, book_id: Vec<u8>) -> (owned: bool)
        requires
            self.wf(),
        ensures
            owned == self@.owns(reader@, book_id@),
    {
        match find_holding(&self.holdings, &book_id, &reader) {
            Some(j) => {
                proof {
                    lemma_holding_at(self.holdings@, j as int);
                }
                self.holdings[j].license.is_some()
            },
            None => false,
        }
    }

    /// Number of copies of `book_id` sold, net of refunds.
    pub fn get_sales(&self, book_id: Vec<u8>) -> (result: Result<u32, EbookError>)
        requires
            self.wf(),
        ensures
            result == sales_outcome(self@, book_id@),
    {
        match find_book(&self.books, &book_id) {
            Some(i) => {
                proof {
                    lemma_book_at(self.books@, i as int);
                }
                Ok(self.books[i].book.sales)
            },
            None => Err(EbookError::BookNotFound),
        }
    }

    /// Revenue from sales of `book_id`, net of refunds.
    pub fn get_revenue(&self, book_id: Vec<u8>) -> (result: Result<u32, EbookError>)
        requires
            self.wf(),
        ensures
            result == revenue_outcome(self@, book_id@),
    {
        match find_book(&self.books, &book_id) {
            Some(i) => {
                proof {
                    lemma_book_at(self.books@, i as int);
                }
                Ok(self.books[i].book.revenue)
            },
            None => Err(EbookError::BookNotFound),
        }
    }

    /// Royalty totals of `book_id` as `(author_total, co_author_total)`;
    /// `(0, 0)` for an unknown book.
    pub fn get_royalty_split(&self, book_id: Vec<u8>) -> (split: (u64, u64))
        requires
            self.wf(),
        ensures
            split == self@.royalty_split(book_id@),
    {
        match find_book(&self.books, &book_id) {
            Some(i) => {
                proof {
                    lemma_book_at(self.books@, i as int);
                }
                (self.books[i].author_royalty, self.books[i].co_author_royalty)
            },
            None => (0, 0),
        }
    }

    /// Rebuilds a store from its records, as `into_records` gives them.
    /// Returns `None` when the records cannot stand as a store: a book id or
    /// a `(book, reader)` pair occurs twice, a price is zero, a co-author
    /// share exceeds 100%,
    /// or a holding refers to a book that is not listed.
    pub fn from_records(books: Vec<BookRecord>, holdings: Vec<Holding>) -> (store: Option<Self>)
        ensures
            store is Some <==> records_valid(books@, holdings@),
            store matches Some(k) ==> k.wf() && k@ == view_of(books@, holdings@),
    {
        let mut i: usize = 0;
        while i < books.len()
            invariant
                i <= books@.len(),
                book_ids_unique(books@.take(i as int)),
                forall|a: int| #![trigger books@[a]] 0 <= a < i ==> books@[a].book.co_author_bps <= BPS_DENOM
                    && books@[a].book.price > 0,
            decreases books@.len() - i,
        {
            if books[i].book.co_author_bps > BPS_DENOM || books[i].book.price == 0 {
                return None;
            }
            let mut j: usize = 0;
            while j < i
                invariant
                    i < books@.len(),
                    j <= i,
                    forall|b: int| #![trigger books@[b]] 0 <= b < j ==> books@[b].id@ != books@[i as int].id@,
                decreases i - j,
            {
                if same_bytes(&books[j].id, &books[i].id) {
                    return None;
                }
                j = j + 1;
            }
            proof {
                let p = books@.take(i as int + 1);
                assert forall|a: int, b: int|
                    0 <= a < p.len() && 0 <= b < p.len() && a != b implies #[trigger] p[a].id@
                    != #[trigger] p[b].id@ by {
                    assert(p[a] == books@[a] && p[b] == books@[b]);
                    if a < i && b < i {
                        assert(books@.take(i as int)[a] == books@[a]);
                        assert(books@.take(i as int)[b] == books@[b]);
                    }
                }
            }
            i = i + 1;
        }
        proof {
            assert(books@.take(books@.len() as int) =~= books@);
        }
        let mut i: usize = 0;
        while i < holdings.len()
            invariant
                i <= holdings@.len(),
                holding_keys_unique(holdings@.take(i as int)),
                forall|a: int| #![trigger holdings@[a]] 0 <= a < i ==> has_book(books@, holdings@[a].book_id@),
            decreases holdings@.len() - i,
        {
            if find_book(&books, &holdings[i].book_id).is_none() {
                return None;
            }
            let mut j: usize = 0;
            while j < i
                invariant
                    i < holdings@.len(),
                    j <= i,
                    forall|b: int| #![trigger holdings@[b]] 0 <= b < j ==> holding_key(holdings@[b]) != holding_key(holdings@[i as int]),
                decreases i - j,
            {
                if same_bytes(&holdings[j].book_id, &holdings[i].book_id) && same_bytes(
                    &holdings[j].reader,
                    &holdings[i].reader,
                ) {
                    return None;
                }
                j = j + 1;
            }
            proof {
                let p = holdings@.take(i as int + 1);
                assert forall|a: int, b: int|
                    0 <= a < p.len() && 0 <= b < p.len() && a != b implies holding_key(#[trigger] p[a])
                    != holding_key(#[trigger] p[b]) by {
                    assert(p[a] == holdings@[a] && p[b] == holdings@[b]);
                    if a < i && b < i {
                        assert(holdings@.take(i as int)[a] == holdings@[a]);
                        assert(holdings@.take(i as int)[b] == holdings@[b]);
                    }
                }
            }
            i = i + 1;
        }
        proof {
            assert(holdings@.take(holdings@.len() as int) =~= holdings@);
            lemma_records_valid(books@, holdings@);
        }
        Some(EbookKindle { books, holdings })
    }

    /// A store's abstract state is well-formed: every book has a positive
    /// price and a co-author share of at most 100%, every book has royalty
    /// accounts, every holding refers to a published book, and there are
    /// finitely many holdings.
    pub proof fn lemma_view_wf(&self)
        requires
            self.wf(),
        ensures
            self@.wf(),
    {
    }

    /// Hands out the store's records: its book records and its holdings.
    pub fn into_records(self) -> (records: (Vec<BookRecord>, Vec<Holding>))
        requires
            self.wf(),
        ensures
            records_valid(records.0@, records.1@),
            view_of(records.0@, records.1@) == self@,
    {
        proof {
            lemma_records_valid(self.books@, self.holdings@);
        }
        (self.books, self.holdings)
    }
}

} // verus!
