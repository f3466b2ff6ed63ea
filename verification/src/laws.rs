use vstd::prelude::*;

use crate::error::EbookError;
use crate::model::{
    buy_outcome, chosen_window, empty_store, publish_outcome, refund_outcome, revenue_outcome,
    run, sales_outcome, sat_sub_u64, step, succeeds, KindleView, Request,
};
use crate::license::license_hash_of;
use crate::royalty::{author_share_of, co_author_share_of, lemma_royalty_split};

verus! {

// ---------------------------------------------------------------------------
// Well-formedness.

/// Every request keeps the abstract state well-formed.
pub proof fn lemma_step_keeps_wf(s: KindleView, req: Request)
    requires
        s.wf(),
    ensures
        step(s, req).wf(),
{
    let next = step(s, req);
    assert(next.royalties.dom() =~= next.books.dom());
}

/// Any sequence of requests keeps the abstract state well-formed.
pub proof fn lemma_run_keeps_wf(s: KindleView, reqs: Seq<Request>)
    requires
        s.wf(),
    ensures
        run(s, reqs).wf(),
    decreases reqs.len(),
{
    if reqs.len() > 0 {
        lemma_run_keeps_wf(s, reqs.drop_last());
        lemma_step_keeps_wf(run(s, reqs.drop_last()), reqs.last());
    }
}

/// The empty store is well-formed.
pub proof fn lemma_empty_store_wf()
    ensures
        empty_store().wf(),
{
    assert(empty_store().holdings.dom() =~= Set::empty());
}

// ---------------------------------------------------------------------------
// What each request does.

/// Publishing is accepted exactly when the price is positive, the
/// co-author's share is at most 10_000 basis points and no book is yet
/// published under the id; who the author is, and which other books exist,
/// play no part. The refusals come in that order. An accepted publication
/// adds exactly the described book, with no sales, no revenue, empty
/// royalty accounts and the chosen refund window (100 ledgers when none is
/// given), and changes nothing else.
pub proof fn lemma_publish_decides(
    s: KindleView,
    author: Seq<u8>,
    book_id: Seq<u8>,
    content_hash: Seq<u8>,
    price: u32,
    co_author: Seq<u8>,
    co_author_bps: u32,
    refund_window: Option<u64>,
    other: Seq<u8>,
)
    requires
        other != book_id,
    ensures
        ({
            let out = publish_outcome(
                s,
                author,
                book_id,
                content_hash,
                price,
                co_author,
                co_author_bps,
                refund_window,
            );
            &&& out is Ok <==> (price > 0 && co_author_bps <= 10_000 && !s.books.contains_key(
                book_id,
            ))
            &&& price == 0 ==> out == Err::<KindleView, EbookError>(EbookError::ZeroPrice)
            &&& price > 0 && co_author_bps > 10_000 ==> out == Err::<KindleView, EbookError>(
                EbookError::ShareTooLarge,
            )
            &&& price > 0 && co_author_bps <= 10_000 && s.books.contains_key(book_id) ==> out
                == Err::<KindleView, EbookError>(EbookError::AlreadyPublished)
            &&& out matches Ok(next) ==> {
                &&& next.books.contains_key(book_id)
                &&& next.books[book_id].author == author
                &&& next.books[book_id].co_author == co_author
                &&& next.books[book_id].content_hash == content_hash
                &&& next.books[book_id].price == price
                &&& next.books[book_id].co_author_bps == co_author_bps
                &&& next.books[book_id].sales == 0
                &&& next.books[book_id].revenue == 0
                &&& refund_window matches Some(w) ==> next.books[book_id].refund_window == w
                &&& refund_window is None ==> next.books[book_id].refund_window == 100
                &&& next.royalty_split(book_id) == (0u64, 0u64)
                &&& sales_outcome(next, book_id) == Ok::<u32, EbookError>(0)
                &&& revenue_outcome(next, book_id) == Ok::<u32, EbookError>(0)
                &&& next.books.contains_key(other) == s.books.contains_key(other)
                &&& s.books.contains_key(other) ==> next.books[other] == s.books[other]
                &&& next.royalty_split(other) == s.royalty_split(other)
                &&& next.holdings == s.holdings
            }
        }),
{
}

/// A purchase is accepted exactly when the book is published and the
/// reader holds no license for that same book; licenses the reader holds
/// for other books play no part. An accepted purchase issues the license
/// hash of the purchase, records the purchase ledger, counts one more sale
/// (saturating), adds the price to the revenue (saturating) and the shares
/// of the price to the royalty accounts (saturating), keeps the reader's
/// refund mark, and changes nothing else: the sales report, revenue report
/// and royalty report of the book move by exactly one sale.
pub proof fn lemma_buy_decides(
    s: KindleView,
    reader: Seq<u8>,
    book_id: Seq<u8>,
    sequence: u32,
    book_id_bits: u64,
    reader_bits: u64,
    other_reader: Seq<u8>,
    other_book: Seq<u8>,
)
    requires
        s.wf(),
        other_reader != reader || other_book != book_id,
    ensures
        ({
            let out = buy_outcome(s, reader, book_id, sequence, book_id_bits, reader_bits);
            &&& out is Ok <==> (s.books.contains_key(book_id) && !s.owns(reader, book_id))
            &&& !s.books.contains_key(book_id) ==> out == Err::<(KindleView, Seq<u8>), EbookError>(
                EbookError::BookNotFound,
            )
            &&& s.books.contains_key(book_id) && s.owns(reader, book_id) ==> out == Err::<
                (KindleView, Seq<u8>),
                EbookError,
            >(EbookError::AlreadyOwned)
            &&& out matches Ok((next, hash)) ==> {
                let b = s.books[book_id];
                let a = author_share_of(b.price, b.co_author_bps);
                let c = co_author_share_of(b.price, b.co_author_bps);
                let old_sales = b.sales as int;
                let old_revenue = b.revenue as int;
                let old_split = s.royalty_split(book_id);
                &&& hash == license_hash_of(b.content_hash, sequence, book_id_bits, reader_bits)
                &&& next.owns(reader, book_id)
                &&& next.holdings[(book_id, reader)].license == Some(hash)
                &&& next.holdings[(book_id, reader)].purchased_at == sequence
                &&& next.was_refunded(reader, book_id) == s.was_refunded(reader, book_id)
                &&& old_sales < u32::MAX ==> sales_outcome(next, book_id) == Ok::<u32, EbookError>(
                    (old_sales + 1) as u32,
                )
                &&& old_sales == u32::MAX ==> sales_outcome(next, book_id) == Ok::<u32, EbookError>(
                    u32::MAX,
                )
                &&& old_revenue + b.price <= u32::MAX ==> revenue_outcome(next, book_id) == Ok::<
                    u32,
                    EbookError,
                >((old_revenue + b.price) as u32)
                &&& old_revenue + b.price > u32::MAX ==> revenue_outcome(next, book_id) == Ok::<
                    u32,
                    EbookError,
                >(u32::MAX)
                &&& old_split.0 + a <= u64::MAX ==> next.royalty_split(book_id).0 == old_split.0 + a
                &&& old_split.1 + c <= u64::MAX ==> next.royalty_split(book_id).1 == old_split.1 + c
                &&& next.books[book_id].price == b.price
                &&& next.books[book_id].co_author_bps == b.co_author_bps
                &&& next.books[book_id].refund_window == b.refund_window
                &&& next.books[book_id].author == b.author
                &&& next.books[book_id].co_author == b.co_author
                &&& next.books[book_id].content_hash == b.content_hash
                &&& next.books.dom() == s.books.dom()
                &&& other_book != book_id && s.books.contains_key(other_book)
                    ==> next.books[other_book] == s.books[other_book]
                &&& other_book != book_id ==> next.royalty_split(other_book) == s.royalty_split(
                    other_book,
                )
                &&& next.holdings.contains_key((other_book, other_reader)) == s.holdings.contains_key(
                    (other_book, other_reader),
                )
                &&& s.holdings.contains_key((other_book, other_reader)) ==> next.holdings[(
                    other_book,
                    other_reader,
                )] == s.holdings[(other_book, other_reader)]
            }
        }),
{
    if let Ok((next, _)) = buy_outcome(s, reader, book_id, sequence, book_id_bits, reader_bits) {
        lemma_royalty_split(s.books[book_id].price, s.books[book_id].co_author_bps);
        assert(next.books.dom() =~= s.books.dom());
    }
}

/// A refund is accepted exactly when the book is published, the reader
/// holds a license for it, the reader has not been refunded for it before,
/// and at most `refund_window` ledgers have passed since the purchase
/// (`now - purchased_at <= refund_window`, a ledger before the purchase
/// counting as none passed). The refusals come in that order. An accepted
/// refund revokes the license, marks the reader as refunded, and takes one
/// sale, its price and its shares back out of the reports (at zero they
/// stay at zero), changing nothing else.
pub proof fn lemma_refund_decides(
    s: KindleView,
    reader: Seq<u8>,
    book_id: Seq<u8>,
    now: u32,
    other_reader: Seq<u8>,
    other_book: Seq<u8>,
)
    requires
        s.wf(),
        other_reader != reader || other_book != book_id,
    ensures
        ({
            let out = refund_outcome(s, reader, book_id, now);
            let key = (book_id, reader);
            let elapsed = now as int - s.holdings[key].purchased_at as int;
            let window = s.books[book_id].refund_window as int;
            &&& out is Ok <==> (s.books.contains_key(book_id) && s.owns(reader, book_id)
                && !s.was_refunded(reader, book_id) && elapsed <= window)
            &&& !s.books.contains_key(book_id) ==> out == Err::<KindleView, EbookError>(
                EbookError::BookNotFound,
            )
            &&& s.books.contains_key(book_id) && !s.owns(reader, book_id) ==> out == Err::<
                KindleView,
                EbookError,
            >(EbookError::NotOwned)
            &&& s.books.contains_key(book_id) && s.owns(reader, book_id) && s.was_refunded(
                reader,
                book_id,
            ) ==> out == Err::<KindleView, EbookError>(EbookError::AlreadyRefunded)
            &&& s.books.contains_key(book_id) && s.owns(reader, book_id) && !s.was_refunded(
                reader,
                book_id,
            ) && elapsed > window ==> out == Err::<KindleView, EbookError>(
                EbookError::RefundWindowExpired,
            )
            &&& out matches Ok(next) ==> {
                let b = s.books[book_id];
                let a = author_share_of(b.price, b.co_author_bps);
                let c = co_author_share_of(b.price, b.co_author_bps);
                let old_split = s.royalty_split(book_id);
                &&& !next.owns(reader, book_id)
                &&& next.was_refunded(reader, book_id)
                &&& next.holdings[key].purchased_at == s.holdings[key].purchased_at
                &&& b.sales > 0 ==> sales_outcome(next, book_id) == Ok::<u32, EbookError>(
                    (b.sales - 1) as u32,
                )
                &&& b.sales == 0 ==> sales_outcome(next, book_id) == Ok::<u32, EbookError>(0)
                &&& b.revenue >= b.price ==> revenue_outcome(next, book_id) == Ok::<u32, EbookError>(
                    (b.revenue - b.price) as u32,
                )
                &&& b.revenue < b.price ==> revenue_outcome(next, book_id) == Ok::<u32, EbookError>(
                    0,
                )
                &&& old_split.0 >= a ==> next.royalty_split(book_id).0 == old_split.0 - a
                &&& old_split.1 >= c ==> next.royalty_split(book_id).1 == old_split.1 - c
                &&& next.books[book_id].price == b.price
                &&& next.books[book_id].co_author_bps == b.co_author_bps
                &&& next.books[book_id].refund_window == b.refund_window
                &&& next.books.dom() == s.books.dom()
                &&& other_book != book_id && s.books.contains_key(other_book)
                    ==> next.books[other_book] == s.books[other_book]
                &&& other_book != book_id ==> next.royalty_split(other_book) == s.royalty_split(
                    other_book,
                )
                &&& next.holdings.contains_key((other_book, other_reader)) == s.holdings.contains_key(
                    (other_book, other_reader),
                )
                &&& s.holdings.contains_key((other_book, other_reader)) ==> next.holdings[(
                    other_book,
                    other_reader,
                )] == s.holdings[(other_book, other_reader)]
            }
        }),
{
    if let Ok(next) = refund_outcome(s, reader, book_id, now) {
        lemma_royalty_split(s.books[book_id].price, s.books[book_id].co_author_bps);
        assert(next.books.dom() =~= s.books.dom());
    }
}

/// The sales, revenue and royalty reports of a book read what the store
/// holds for it: its sales count, its revenue and its royalty accounts;
/// asking about an unknown book gives `BookNotFound` for sales and revenue
/// and `(0, 0)` for royalties.
pub proof fn lemma_reports_read_the_store(s: KindleView, book_id: Seq<u8>)
    requires
        s.wf(),
    ensures
        s.books.contains_key(book_id) ==> sales_outcome(s, book_id) == Ok::<u32, EbookError>(
            s.books[book_id].sales,
        ) && revenue_outcome(s, book_id) == Ok::<u32, EbookError>(s.books[book_id].revenue)
            && s.royalty_split(book_id) == s.royalties[book_id],
        !s.books.contains_key(book_id) ==> sales_outcome(s, book_id) == Err::<u32, EbookError>(
            EbookError::BookNotFound,
        ) && revenue_outcome(s, book_id) == Err::<u32, EbookError>(EbookError::BookNotFound)
            && s.royalty_split(book_id) == (0u64, 0u64),
{
}

/// In every state reached from the empty store, the sales report of a
/// published book is its number of current license holders and its
/// royalty report is that number times each share, as long as no accepted
/// purchase of the book met a full sales count; its revenue report is that
/// number times the price, as long as no accepted purchase of the book
/// pushed the revenue past its maximum.
pub proof fn lemma_reports_count_license_holders(reqs: Seq<Request>, book_id: Seq<u8>)
    ensures
        ({
            let s = run(empty_store(), reqs);
            let n = license_holders(s, book_id).len();
            let b = s.books[book_id];
            &&& s.books.contains_key(book_id) && sales_never_full(empty_store(), reqs, book_id) ==> {
                &&& n <= u32::MAX
                &&& sales_outcome(s, book_id) == Ok::<u32, EbookError>(n as u32)
                &&& s.royalty_split(book_id) == ((n * author_share_of(b.price, b.co_author_bps)) as u64,
                    (n * co_author_share_of(b.price, b.co_author_bps)) as u64)
            }
            &&& s.books.contains_key(book_id) && revenue_never_full(empty_store(), reqs, book_id) ==> {
                &&& n * b.price <= u32::MAX
                &&& revenue_outcome(s, book_id) == Ok::<u32, EbookError>((n * b.price) as u32)
            }
        }),
{
    lemma_accounts_audit(reqs, book_id);
}

// ---------------------------------------------------------------------------
// Publishing.

/// A book id can be published only once: once a book is published under
/// `book_id`, every later request to publish under `book_id` is refused,
/// with `AlreadyPublished` whenever its price and share are acceptable.
pub proof fn lemma_publish_once(
    s: KindleView,
    author: Seq<u8>,
    book_id: Seq<u8>,
    content_hash: Seq<u8>,
    price: u32,
    co_author: Seq<u8>,
    co_author_bps: u32,
    refund_window: Option<u64>,
    reqs: Seq<Request>,
    author2: Seq<u8>,
    content_hash2: Seq<u8>,
    price2: u32,
    co_author2: Seq<u8>,
    co_author_bps2: u32,
    refund_window2: Option<u64>,
)
    requires
        publish_outcome(
            s,
            author,
            book_id,
            content_hash,
            price,
            co_author,
            co_author_bps,
            refund_window,
        ) is Ok,
    ensures
        ({
            let next = publish_outcome(
                s,
                author,
                book_id,
                content_hash,
                price,
                co_author,
                co_author_bps,
                refund_window,
            )->Ok_0;
            let again = publish_outcome(
                run(next, reqs),
                author2,
                book_id,
                content_hash2,
                price2,
                co_author2,
                co_author_bps2,
                refund_window2,
            );
            &&& again is Err
            &&& price2 > 0 && co_author_bps2 <= 10_000 ==> again == Err::<KindleView, EbookError>(
                EbookError::AlreadyPublished,
            )
        }),
{
    let next = publish_outcome(
        s,
        author,
        book_id,
        content_hash,
        price,
        co_author,
        co_author_bps,
        refund_window,
    )->Ok_0;
    lemma_run_keeps_book(next, reqs, book_id);
}

/// A published book stays published whatever requests follow.
pub proof fn lemma_run_keeps_book(s: KindleView, reqs: Seq<Request>, book_id: Seq<u8>)
    requires
        s.books.contains_key(book_id),
    ensures
        run(s, reqs).books.contains_key(book_id),
    decreases reqs.len(),
{
    if reqs.len() > 0 {
        lemma_run_keeps_book(s, reqs.drop_last(), book_id);
    }
}

/// A freshly published book has no sales, no revenue, empty royalty
/// accounts, the refund window the author chose (the default one when none
/// was given), and no reader holds a license for it; the other books are
/// untouched.
pub proof fn lemma_published_book_is_fresh(
    s: KindleView,
    author: Seq<u8>,
    book_id: Seq<u8>,
    content_hash: Seq<u8>,
    price: u32,
    co_author: Seq<u8>,
    co_author_bps: u32,
    refund_window: Option<u64>,
    reader: Seq<u8>,
    other: Seq<u8>,
)
    requires
        s.wf(),
        publish_outcome(
            s,
            author,
            book_id,
            content_hash,
            price,
            co_author,
            co_author_bps,
            refund_window,
        ) is Ok,
        other != book_id,
    ensures
        ({
            let next = publish_outcome(
                s,
                author,
                book_id,
                content_hash,
                price,
                co_author,
                co_author_bps,
                refund_window,
            )->Ok_0;
            &&& sales_outcome(next, book_id) == Ok::<u32, EbookError>(0)
            &&& revenue_outcome(next, book_id) == Ok::<u32, EbookError>(0)
            &&& next.royalty_split(book_id) == (0u64, 0u64)
            &&& next.books[book_id].refund_window == chosen_window(refund_window)
            &&& refund_window is None ==> next.books[book_id].refund_window == 100
            &&& next.books[book_id].price == price
            &&& next.books[book_id].co_author_bps == co_author_bps
            &&& !next.owns(reader, book_id)
            &&& sales_outcome(next, other) == sales_outcome(s, other)
            &&& revenue_outcome(next, other) == revenue_outcome(s, other)
            &&& next.royalty_split(other) == s.royalty_split(other)
        }),
{
}

// ---------------------------------------------------------------------------
// Licenses and refunds.

/// Whether `req` is a purchase of `book_id` by `reader`.
pub open spec fn is_buy_of(req: Request, reader: Seq<u8>, book_id: Seq<u8>) -> bool {
    req matches Request::Buy { reader: r, book_id: b, .. } && r == reader && b == book_id
}

/// Whether `req` is a refund request of `reader` for `book_id`.
pub open spec fn is_refund_of(req: Request, reader: Seq<u8>, book_id: Seq<u8>) -> bool {
    req matches Request::Refund { reader: r, book_id: b, .. } && r == reader && b == book_id
}

/// Whether, running `reqs` from `s`, the store accepted a purchase of
/// `book_id` by `reader`.
pub open spec fn bought_along(s: KindleView, reqs: Seq<Request>, reader: Seq<u8>, book_id: Seq<u8>) -> bool
    decreases reqs.len(),
{
    if reqs.len() == 0 {
        false
    } else {
        bought_along(s, reqs.drop_last(), reader, book_id) || (is_buy_of(reqs.last(), reader, book_id)
            && succeeds(run(s, reqs.drop_last()), reqs.last()))
    }
}

/// Whether, running `reqs` from `s`, the store accepted a refund of
/// `reader`'s purchase of `book_id`.
pub open spec fn refunded_along(
    s: KindleView,
    reqs: Seq<Request>,
    reader: Seq<u8>,
    book_id: Seq<u8>,
) -> bool
    decreases reqs.len(),
{
    if reqs.len() == 0 {
        false
    } else {
        refunded_along(s, reqs.drop_last(), reader, book_id) || (is_refund_of(
            reqs.last(),
            reader,
            book_id,
        ) && succeeds(run(s, reqs.drop_last()), reqs.last()))
    }
}

/// A successful purchase leaves the reader holding the license that was
/// issued, and a second purchase of the same book by the same reader is
/// refused while that license is held.
pub proof fn lemma_buy_grants_license(
    s: KindleView,
    reader: Seq<u8>,
    book_id: Seq<u8>,
    sequence: u32,
    book_id_bits: u64,
    reader_bits: u64,
    sequence2: u32,
    book_id_bits2: u64,
    reader_bits2: u64,
)
    requires
        buy_outcome(s, reader, book_id, sequence, book_id_bits, reader_bits) is Ok,
    ensures
        ({
            let (next, hash) = buy_outcome(
                s,
                reader,
                book_id,
                sequence,
                book_id_bits,
                reader_bits,
            )->Ok_0;
            &&& next.owns(reader, book_id)
            &&& next.holdings[(book_id, reader)].license == Some(hash)
            &&& next.holdings[(book_id, reader)].purchased_at == sequence
            &&& buy_outcome(next, reader, book_id, sequence2, book_id_bits2, reader_bits2) == Err::<
                (KindleView, Seq<u8>),
                EbookError,
            >(EbookError::AlreadyOwned)
        }),
{
}

/// A successful refund revokes the reader's license and marks the reader
/// as refunded; asking for the refund again is refused.
pub proof fn lemma_refund_revokes_license(
    s: KindleView,
    reader: Seq<u8>,
    book_id: Seq<u8>,
    now: u32,
    now2: u32,
)
    requires
        refund_outcome(s, reader, book_id, now) is Ok,
    ensures
        ({
            let next = refund_outcome(s, reader, book_id, now)->Ok_0;
            &&& !next.owns(reader, book_id)
            &&& next.was_refunded(reader, book_id)
            &&& refund_outcome(next, reader, book_id, now2) == Err::<KindleView, EbookError>(
                EbookError::NotOwned,
            )
        }),
{
}

/// A license, once held, stays held as long as the store accepts no refund
/// of it.
pub proof fn lemma_license_kept_until_refund(
    s: KindleView,
    reqs: Seq<Request>,
    reader: Seq<u8>,
    book_id: Seq<u8>,
)
    requires
        s.owns(reader, book_id),
        !refunded_along(s, reqs, reader, book_id),
    ensures
        run(s, reqs).owns(reader, book_id),
    decreases reqs.len(),
{
    if reqs.len() > 0 {
        lemma_license_kept_until_refund(s, reqs.drop_last(), reader, book_id);
    }
}

/// Without a license, a reader gets none as long as the store accepts no
/// purchase of the book by that reader.
pub proof fn lemma_no_license_until_bought(
    s: KindleView,
    reqs: Seq<Request>,
    reader: Seq<u8>,
    book_id: Seq<u8>,
)
    requires
        !s.owns(reader, book_id),
        !bought_along(s, reqs, reader, book_id),
    ensures
        !run(s, reqs).owns(reader, book_id),
    decreases reqs.len(),
{
    if reqs.len() > 0 {
        lemma_no_license_until_bought(s, reqs.drop_last(), reader, book_id);
    }
}

/// A reader can be refunded for a book at most once: once the reader has
/// been refunded for the book, the mark stays whatever requests follow,
/// buying the book again included, and every later refund request for the
/// book is refused.
pub proof fn lemma_refund_at_most_once(
    s: KindleView,
    reqs: Seq<Request>,
    reader: Seq<u8>,
    book_id: Seq<u8>,
    now: u32,
)
    requires
        s.was_refunded(reader, book_id),
    ensures
        run(s, reqs).was_refunded(reader, book_id),
        refund_outcome(run(s, reqs), reader, book_id, now) is Err,
    decreases reqs.len(),
{
    if reqs.len() > 0 {
        lemma_refund_at_most_once(s, reqs.drop_last(), reader, book_id, now);
    }
}

/// A refund inside the window takes back exactly what the purchase put in:
/// the book's sales and revenue and both royalty accounts return to what
/// they were before the purchase, the license is revoked and the refund is
/// recorded. This holds whenever none of the purchase's additions saturated.
pub proof fn lemma_refund_undoes_buy(
    s: KindleView,
    reader: Seq<u8>,
    book_id: Seq<u8>,
    sequence: u32,
    book_id_bits: u64,
    reader_bits: u64,
    now: u32,
)
    requires
        s.wf(),
        buy_outcome(s, reader, book_id, sequence, book_id_bits, reader_bits) is Ok,
        !s.was_refunded(reader, book_id),
        s.books[book_id].sales < u32::MAX,
        s.books[book_id].revenue + s.books[book_id].price <= u32::MAX,
        s.royalty_split(book_id).0 + author_share_of(
            s.books[book_id].price,
            s.books[book_id].co_author_bps,
        ) <= u64::MAX,
        s.royalty_split(book_id).1 + co_author_share_of(
            s.books[book_id].price,
            s.books[book_id].co_author_bps,
        ) <= u64::MAX,
        sat_sub_u64(now as u64, sequence as int) <= s.books[book_id].refund_window,
    ensures
        ({
            let next = buy_outcome(s, reader, book_id, sequence, book_id_bits, reader_bits)->Ok_0.0;
            let after = refund_outcome(next, reader, book_id, now);
            &&& after is Ok
            &&& after->Ok_0.books == s.books
            &&& after->Ok_0.royalties == s.royalties
            &&& !after->Ok_0.owns(reader, book_id)
            &&& after->Ok_0.was_refunded(reader, book_id)
        }),
{
    let b = s.books[book_id];
    lemma_royalty_split(b.price, b.co_author_bps);
    let next = buy_outcome(s, reader, book_id, sequence, book_id_bits, reader_bits)->Ok_0.0;
    let after = refund_outcome(next, reader, book_id, now)->Ok_0;
    assert(after.books =~= s.books);
    assert(after.royalties =~= s.royalties);
}

// ---------------------------------------------------------------------------
// Auditable accounting.

/// The readers that currently hold a license for `book_id`.
pub open spec fn license_holders(s: KindleView, book_id: Seq<u8>) -> Set<Seq<u8>> {
    Set::new(|reader: Seq<u8>| s.owns(reader, book_id))
}

/// With `n` current license holders of `book_id`, `n` copies are counted as
/// sold and each royalty account holds `n` times its share of the price.
pub open spec fn counts_match(s: KindleView, book_id: Seq<u8>) -> bool {
    let b = s.books[book_id];
    let n = license_holders(s, book_id).len();
    &&& b.sales == n
    &&& s.royalties[book_id].0 == n * author_share_of(b.price, b.co_author_bps)
    &&& s.royalties[book_id].1 == n * co_author_share_of(b.price, b.co_author_bps)
}

/// With `n` current license holders of `book_id`, the revenue is `n` times
/// the price.
pub open spec fn revenue_matches(s: KindleView, book_id: Seq<u8>) -> bool {
    s.books[book_id].revenue == license_holders(s, book_id).len() * s.books[book_id].price
}

/// `req`, if accepted in `s`, is not a purchase of `book_id` while its
/// sales count is already at its maximum.
pub open spec fn sales_room(s: KindleView, req: Request, book_id: Seq<u8>) -> bool {
    match req {
        Request::Buy { book_id: b, .. } => b == book_id && succeeds(s, req) ==> s.books[book_id].sales
            < u32::MAX,
        _ => true,
    }
}

/// `req`, if accepted in `s`, is not a purchase of `book_id` that pushes
/// its revenue past its maximum.
pub open spec fn revenue_room(s: KindleView, req: Request, book_id: Seq<u8>) -> bool {
    match req {
        Request::Buy { book_id: b, .. } => b == book_id && succeeds(s, req)
            ==> s.books[book_id].revenue + s.books[book_id].price <= u32::MAX,
        _ => true,
    }
}

/// No purchase of `book_id` that the store accepted along `reqs` from `s`
/// met a full sales count.
pub open spec fn sales_never_full(s: KindleView, reqs: Seq<Request>, book_id: Seq<u8>) -> bool
    decreases reqs.len(),
{
    reqs.len() == 0 || (sales_never_full(s, reqs.drop_last(), book_id) && sales_room(
        run(s, reqs.drop_last()),
        reqs.last(),
        book_id,
    ))
}

/// No purchase of `book_id` that the store accepted along `reqs` from `s`
/// pushed its revenue past its maximum.
pub open spec fn revenue_never_full(s: KindleView, reqs: Seq<Request>, book_id: Seq<u8>) -> bool
    decreases reqs.len(),
{
    reqs.len() == 0 || (revenue_never_full(s, reqs.drop_last(), book_id) && revenue_room(
        run(s, reqs.drop_last()),
        reqs.last(),
        book_id,
    ))
}

proof fn lemma_license_holders_finite(s: KindleView, book_id: Seq<u8>)
    requires
        s.wf(),
    ensures
        license_holders(s, book_id).finite(),
{
    let readers = s.holdings.dom().map(|k: (Seq<u8>, Seq<u8>)| k.1);
    s.holdings.dom().lemma_map_finite(|k: (Seq<u8>, Seq<u8>)| k.1);
    assert forall|r: Seq<u8>| #[trigger] license_holders(s, book_id).contains(r) implies readers.contains(r) by {
        assert(s.holdings.dom().contains((book_id, r)));
    }
    vstd::set_lib::lemma_len_subset(license_holders(s, book_id), readers);
}

/// How a request changes the license holders of a book: an accepted
/// purchase adds the buyer, an accepted refund removes the refunded reader,
/// a new book starts with none, and nothing else changes them.
proof fn lemma_holders_after_step(s: KindleView, req: Request, x: Seq<u8>)
    requires
        s.wf(),
        s.books.contains_key(x) || step(s, req).books.contains_key(x),
    ensures
        step(s, req).books.contains_key(x),
        license_holders(s, x).finite(),
        license_holders(step(s, req), x).finite(),
        !s.books.contains_key(x) ==> license_holders(step(s, req), x).len() == 0
            && step(s, req).books[x].sales == 0 && step(s, req).books[x].revenue == 0
            && step(s, req).royalties[x] == (0u64, 0u64),
        s.books.contains_key(x) ==> ({
            let n = license_holders(s, x).len();
            let m = license_holders(step(s, req), x).len();
            match req {
                Request::Buy { reader, book_id, .. } => if book_id == x && succeeds(s, req) {
                    m == n + 1
                } else {
                    m == n && step(s, req).books[x] == s.books[x] && step(s, req).royalties[x]
                        == s.royalties[x]
                },
                Request::Refund { reader, book_id, .. } => if book_id == x && succeeds(s, req) {
                    m == n - 1 && n >= 1
                } else {
                    m == n && step(s, req).books[x] == s.books[x] && step(s, req).royalties[x]
                        == s.royalties[x]
                },
                Request::Publish { .. } => m == n && step(s, req).books[x] == s.books[x]
                    && step(s, req).royalties[x] == s.royalties[x],
            }
        }),
{
    lemma_step_keeps_wf(s, req);
    let next = step(s, req);
    lemma_license_holders_finite(s, x);
    lemma_license_holders_finite(next, x);
    if !s.books.contains_key(x) {
        assert(license_holders(next, x) =~= Set::<Seq<u8>>::empty()) by {
            assert forall|r: Seq<u8>| !#[trigger] license_holders(next, x).contains(r) by {
                if s.holdings.contains_key((x, r)) {
                    assert(s.books.contains_key(x));
                }
            }
        }
    } else {
        match req {
            Request::Buy { reader, book_id, .. } => {
                if book_id == x && succeeds(s, req) {
                    assert(license_holders(next, x) =~= license_holders(s, x).insert(reader));
                    assert(!license_holders(s, x).contains(reader));
                } else {
                    assert(license_holders(next, x) =~= license_holders(s, x));
                }
            },
            Request::Refund { reader, book_id, .. } => {
                if book_id == x && succeeds(s, req) {
                    assert(license_holders(s, x).contains(reader));
                    assert(license_holders(next, x) =~= license_holders(s, x).remove(reader));
                } else {
                    assert(license_holders(next, x) =~= license_holders(s, x));
                }
            },
            Request::Publish { .. } => {
                assert(license_holders(next, x) =~= license_holders(s, x));
            },
        }
    }
}

/// Every request keeps the sales and royalty accounts of `x` in agreement
/// with its license holders, unless it is an accepted purchase of `x` while
/// its sales count is already at its maximum.
pub proof fn lemma_step_keeps_counts_matching(s: KindleView, req: Request, x: Seq<u8>)
    requires
        s.wf(),
        s.books.contains_key(x) ==> counts_match(s, x),
        sales_room(s, req, x),
    ensures
        step(s, req).books.contains_key(x) ==> counts_match(step(s, req), x),
{
    let next = step(s, req);
    if next.books.contains_key(x) {
        lemma_holders_after_step(s, req, x);
        if s.books.contains_key(x) {
            let b = s.books[x];
            let n = license_holders(s, x).len() as int;
            let a = author_share_of(b.price, b.co_author_bps);
            let c = co_author_share_of(b.price, b.co_author_bps);
            lemma_royalty_split(b.price, b.co_author_bps);
            assert(n * a + a == (n + 1) * a && n * c + c == (n + 1) * c) by (nonlinear_arith);
            if n >= 1 {
                assert(n * a - a == (n - 1) * a && n * c - c == (n - 1) * c && n * a >= a && n * c
                    >= c) by (nonlinear_arith)
                    requires
                        n >= 1,
                        a >= 0,
                        c >= 0,
                ;
            }
            if n < u32::MAX {
                assert((n + 1) * a <= 0xffff_ffff * 0xffff_ffff && (n + 1) * c <= 0xffff_ffff
                    * 0xffff_ffff) by (nonlinear_arith)
                    requires
                        0 <= n + 1 <= 0xffff_ffff,
                        0 <= a <= 0xffff_ffff,
                        0 <= c <= 0xffff_ffff,
                ;
            }
        }
    }
}

/// Every request keeps the revenue of `x` in agreement with its license
/// holders, unless it is an accepted purchase of `x` that pushes the revenue
/// past its maximum.
pub proof fn lemma_step_keeps_revenue_matching(s: KindleView, req: Request, x: Seq<u8>)
    requires
        s.wf(),
        s.books.contains_key(x) ==> revenue_matches(s, x),
        revenue_room(s, req, x),
    ensures
        step(s, req).books.contains_key(x) ==> revenue_matches(step(s, req), x),
{
    let next = step(s, req);
    if next.books.contains_key(x) {
        lemma_holders_after_step(s, req, x);
        if s.books.contains_key(x) {
            let p = s.books[x].price as int;
            let n = license_holders(s, x).len() as int;
            assert(n * p + p == (n + 1) * p) by (nonlinear_arith);
            if n >= 1 {
                assert(n * p - p == (n - 1) * p && n * p >= p) by (nonlinear_arith)
                    requires
                        n >= 1,
                        p >= 0,
                ;
            }
        }
    }
}

/// Starting from a well-formed state in which the sales and royalty
/// accounts of `x` (if published) agree with its license holders, they keep
/// agreeing along any requests in which no accepted purchase of `x` met a
/// full sales count.
pub proof fn lemma_run_keeps_counts_matching(s: KindleView, reqs: Seq<Request>, x: Seq<u8>)
    requires
        s.wf(),
        s.books.contains_key(x) ==> counts_match(s, x),
        sales_never_full(s, reqs, x),
    ensures
        run(s, reqs).books.contains_key(x) ==> counts_match(run(s, reqs), x),
    decreases reqs.len(),
{
    if reqs.len() > 0 {
        lemma_run_keeps_counts_matching(s, reqs.drop_last(), x);
        lemma_run_keeps_wf(s, reqs.drop_last());
        lemma_step_keeps_counts_matching(run(s, reqs.drop_last()), reqs.last(), x);
    }
}

/// Starting from a well-formed state in which the revenue of `x` (if
/// published) agrees with its license holders, it keeps agreeing along any
/// requests in which no accepted purchase of `x` pushed the revenue past
/// its maximum.
pub proof fn lemma_run_keeps_revenue_matching(s: KindleView, reqs: Seq<Request>, x: Seq<u8>)
    requires
        s.wf(),
        s.books.contains_key(x) ==> revenue_matches(s, x),
        revenue_never_full(s, reqs, x),
    ensures
        run(s, reqs).books.contains_key(x) ==> revenue_matches(run(s, reqs), x),
    decreases reqs.len(),
{
    if reqs.len() > 0 {
        lemma_run_keeps_revenue_matching(s, reqs.drop_last(), x);
        lemma_run_keeps_wf(s, reqs.drop_last());
        lemma_step_keeps_revenue_matching(run(s, reqs.drop_last()), reqs.last(), x);
    }
}

/// The store's accounts can be audited, book by book: in every state
/// reached from the empty store, a published book's sales count equals its
/// number of license holders and each of its royalty accounts holds that
/// number times its share of the price, as long as no accepted purchase of
/// that book met a full sales count; and its revenue equals that number
/// times the price, as long as no accepted purchase of that book pushed the
/// revenue past its maximum.
pub proof fn lemma_accounts_audit(reqs: Seq<Request>, book_id: Seq<u8>)
    ensures
        run(empty_store(), reqs).wf(),
        run(empty_store(), reqs).books.contains_key(book_id) && sales_never_full(
            empty_store(),
            reqs,
            book_id,
        ) ==> counts_match(run(empty_store(), reqs), book_id),
        run(empty_store(), reqs).books.contains_key(book_id) && revenue_never_full(
            empty_store(),
            reqs,
            book_id,
        ) ==> revenue_matches(run(empty_store(), reqs), book_id),
{
    lemma_empty_store_wf();
    lemma_run_keeps_wf(empty_store(), reqs);
    if sales_never_full(empty_store(), reqs, book_id) {
        lemma_run_keeps_counts_matching(empty_store(), reqs, book_id);
    }
    if revenue_never_full(empty_store(), reqs, book_id) {
        lemma_run_keeps_revenue_matching(empty_store(), reqs, book_id);
    }
}

/// Where both agree with the license holders, a book's two royalty
/// accounts add up to its revenue.
pub proof fn lemma_royalties_add_up_to_revenue(s: KindleView, book_id: Seq<u8>)
    requires
        s.wf(),
        s.books.contains_key(book_id),
        counts_match(s, book_id),
        revenue_matches(s, book_id),
    ensures
        s.royalties[book_id].0 + s.royalties[book_id].1 == s.books[book_id].revenue,
{
    let b = s.books[book_id];
    let n = license_holders(s, book_id).len() as int;
    let a = author_share_of(b.price, b.co_author_bps);
    let c = co_author_share_of(b.price, b.co_author_bps);
    lemma_royalty_split(b.price, b.co_author_bps);
    assert(n * a + n * c == n * (a + c)) by (nonlinear_arith);
}

} // verus!
