use vstd::prelude::*;

use crate::model::{BookView, HoldingView, KindleView};

verus! {

broadcast use vstd::seq_lib::group_seq_properties;

/// A published book: who wrote it, who shares its royalties and at which
/// ratio, the hash of its content, its price, its refund window and its
/// sales accounting.
pub struct Book {
    /// Author (publisher) account.
    pub author: Vec<u8>,
    /// Co-author or illustrator account that receives a share of royalties.
    pub co_author: Vec<u8>,
    /// Co-author's share in basis points (0..=10_000).
    pub co_author_bps: u32,
    /// Hash of the book file.
    pub content_hash: [u8; 32],
    /// Price per copy.
    pub price: u32,
    /// Number of ledgers after a purchase during which a refund is allowed.
    pub refund_window: u64,
    /// Copies sold, net of refunds.
    pub sales: u32,
    /// Revenue from sales, net of refunds.
    pub revenue: u32,
}

impl View for Book {
    type V = BookView;

    open spec fn view(&self) -> BookView {
        BookView {
            author: self.author@,
            co_author: self.co_author@,
            co_author_bps: self.co_author_bps,
            content_hash: self.content_hash@,
            price: self.price,
            refund_window: self.refund_window,
            sales: self.sales,
            revenue: self.revenue,
        }
    }
}

/// A book as the store keeps it: its id, the book, and its royalty totals.
pub struct BookRecord {
    pub id: Vec<u8>,
    pub book: Book,
    pub author_royalty: u64,
    pub co_author_royalty: u64,
}

/// What the store keeps of one reader's purchase of one book.
pub struct Holding {
    pub book_id: Vec<u8>,
    pub reader: Vec<u8>,
    /// Ledger sequence of the latest purchase.
    pub purchased_at: u64,
    /// The license currently held, if any.
    pub license: Option<[u8; 32]>,
    /// Whether the reader has been refunded for this book.
    pub refunded: bool,
}

impl View for Holding {
    type V = HoldingView;

    open spec fn view(&self) -> HoldingView {
        HoldingView {
            purchased_at: self.purchased_at,
            license: match self.license {
                Some(h) => Some(h@),
                None => None,
            },
            refunded: self.refunded,
        }
    }
}

// ---------------------------------------------------------------------------
// Books, looked up by id.

pub open spec fn book_ids_unique(recs: Seq<BookRecord>) -> bool {
    forall|i: int, j: int|
        #![trigger recs[i], recs[j]]
        0 <= i < recs.len() && 0 <= j < recs.len() && i != j ==> recs[i].id@ != recs[j].id@
}

pub open spec fn has_book(recs: Seq<BookRecord>, id: Seq<u8>) -> bool {
    exists|i: int| #![trigger recs[i]] 0 <= i < recs.len() && recs[i].id@ == id
}

pub open spec fn book_pos(recs: Seq<BookRecord>, id: Seq<u8>) -> int {
    choose|i: int| #![trigger recs[i]] 0 <= i < recs.len() && recs[i].id@ == id
}

pub open spec fn books_map(recs: Seq<BookRecord>) -> Map<Seq<u8>, BookView> {
    Map::new(|id: Seq<u8>| has_book(recs, id), |id: Seq<u8>| recs[book_pos(recs, id)].book@)
}

pub open spec fn royalties_map(recs: Seq<BookRecord>) -> Map<Seq<u8>, (u64, u64)> {
    Map::new(
        |id: Seq<u8>| has_book(recs, id),
        |id: Seq<u8>|
            (recs[book_pos(recs, id)].author_royalty, recs[book_pos(recs, id)].co_author_royalty),
    )
}

pub proof fn lemma_book_at(recs: Seq<BookRecord>, i: int)
    requires
        book_ids_unique(recs),
        0 <= i < recs.len(),
    ensures
        has_book(recs, recs[i].id@),
        book_pos(recs, recs[i].id@) == i,
        books_map(recs).contains_key(recs[i].id@),
        books_map(recs)[recs[i].id@] == recs[i].book@,
        royalties_map(recs).contains_key(recs[i].id@),
        royalties_map(recs)[recs[i].id@] == (recs[i].author_royalty, recs[i].co_author_royalty),
{
    assert(has_book(recs, recs[i].id@));
}

pub proof fn lemma_books_push(recs: Seq<BookRecord>, r: BookRecord)
    requires
        book_ids_unique(recs),
        !has_book(recs, r.id@),
    ensures
        book_ids_unique(recs.push(r)),
        books_map(recs.push(r)) == books_map(recs).insert(r.id@, r.book@),
        royalties_map(recs.push(r)) == royalties_map(recs).insert(
            r.id@,
            (r.author_royalty, r.co_author_royalty),
        ),
{
    let n = recs.push(r);
    assert forall|i: int, j: int|
        0 <= i < n.len() && 0 <= j < n.len() && i != j implies #[trigger] n[i].id@
        != #[trigger] n[j].id@ by {
        if i < recs.len() && j < recs.len() {
            assert(recs[i] == n[i] && recs[j] == n[j]);
        } else if i < recs.len() {
            assert(recs[i] == n[i]);
        } else {
            assert(recs[j] == n[j]);
        }
    }
    lemma_book_at(n, recs.len() as int);
    assert forall|id: Seq<u8>| #[trigger] has_book(n, id) == (has_book(recs, id) || id == r.id@) by {
        if has_book(recs, id) {
            let i = book_pos(recs, id);
            assert(n[i] == recs[i]);
        }
        if has_book(n, id) && id != r.id@ {
            let i = book_pos(n, id);
            assert(n[i] == recs[i]);
        }
    }
    assert forall|id: Seq<u8>| has_book(recs, id) implies book_pos(n, id) == book_pos(recs, id) by {
        let i = book_pos(recs, id);
        assert(n[i] == recs[i]);
        lemma_book_at(n, i);
    }
    assert(books_map(n) =~= books_map(recs).insert(r.id@, r.book@));
    assert(royalties_map(n) =~= royalties_map(recs).insert(
        r.id@,
        (r.author_royalty, r.co_author_royalty),
    ));
}

pub proof fn lemma_books_update(recs: Seq<BookRecord>, i: int, r: BookRecord)
    requires
        book_ids_unique(recs),
        0 <= i < recs.len(),
        r.id@ == recs[i].id@,
    ensures
        book_ids_unique(recs.update(i, r)),
        books_map(recs.update(i, r)) == books_map(recs).insert(r.id@, r.book@),
        royalties_map(recs.update(i, r)) == royalties_map(recs).insert(
            r.id@,
            (r.author_royalty, r.co_author_royalty),
        ),
{
    let n = recs.update(i, r);
    assert forall|a: int, b: int|
        0 <= a < n.len() && 0 <= b < n.len() && a != b implies #[trigger] n[a].id@
        != #[trigger] n[b].id@ by {
        assert(n[a].id@ == recs[a].id@);
        assert(n[b].id@ == recs[b].id@);
    }
    lemma_book_at(n, i);
    assert forall|id: Seq<u8>| #[trigger] has_book(n, id) == has_book(recs, id) by {
        if has_book(recs, id) {
            let k = book_pos(recs, id);
            assert(n[k].id@ == recs[k].id@);
        }
        if has_book(n, id) {
            let k = book_pos(n, id);
            assert(n[k].id@ == recs[k].id@);
        }
    }
    assert forall|id: Seq<u8>| has_book(recs, id) && id != r.id@ implies book_pos(n, id)
        == book_pos(recs, id) && n[book_pos(n, id)] == recs[book_pos(recs, id)] by {
        let k = book_pos(recs, id);
        assert(k != i);
        assert(n[k] == recs[k]);
        lemma_book_at(n, k);
    }
    assert(books_map(n) =~= books_map(recs).insert(r.id@, r.book@));
    assert(royalties_map(n) =~= royalties_map(recs).insert(
        r.id@,
        (r.author_royalty, r.co_author_royalty),
    ));
}

// ---------------------------------------------------------------------------
// Holdings, looked up by (book id, reader).

pub open spec fn holding_key(h: Holding) -> (Seq<u8>, Seq<u8>) {
    (h.book_id@, h.reader@)
}

pub open spec fn holding_keys_unique(hs: Seq<Holding>) -> bool {
    forall|i: int, j: int|
        #![trigger hs[i], hs[j]]
        0 <= i < hs.len() && 0 <= j < hs.len() && i != j ==> holding_key(hs[i]) != holding_key(
            hs[j],
        )
}

pub open spec fn has_holding(hs: Seq<Holding>, k: (Seq<u8>, Seq<u8>)) -> bool {
    exists|i: int| #![trigger hs[i]] 0 <= i < hs.len() && holding_key(hs[i]) == k
}

pub open spec fn holding_pos(hs: Seq<Holding>, k: (Seq<u8>, Seq<u8>)) -> int {
    choose|i: int| #![trigger hs[i]] 0 <= i < hs.len() && holding_key(hs[i]) == k
}

pub open spec fn holdings_map(hs: Seq<Holding>) -> Map<(Seq<u8>, Seq<u8>), HoldingView> {
    Map::new(
        |k: (Seq<u8>, Seq<u8>)| has_holding(hs, k),
        |k: (Seq<u8>, Seq<u8>)| hs[holding_pos(hs, k)]@,
    )
}

pub proof fn lemma_holding_at(hs: Seq<Holding>, i: int)
    requires
        holding_keys_unique(hs),
        0 <= i < hs.len(),
    ensures
        has_holding(hs, holding_key(hs[i])),
        holding_pos(hs, holding_key(hs[i])) == i,
        holdings_map(hs).contains_key(holding_key(hs[i])),
        holdings_map(hs)[holding_key(hs[i])] == hs[i]@,
{
    assert(has_holding(hs, holding_key(hs[i])));
}

pub proof fn lemma_holdings_finite(hs: Seq<Holding>)
    ensures
        holdings_map(hs).dom().finite(),
{
    let keys = hs.map_values(|h: Holding| holding_key(h));
    assert forall|k: (Seq<u8>, Seq<u8>)| #[trigger]
        holdings_map(hs).dom().contains(k) implies keys.to_set().contains(k) by {
        let i = holding_pos(hs, k);
        assert(keys[i] == k);
    }
    vstd::set_lib::lemma_len_subset(holdings_map(hs).dom(), keys.to_set());
}

pub proof fn lemma_holdings_push(hs: Seq<Holding>, h: Holding)
    requires
        holding_keys_unique(hs),
        !has_holding(hs, holding_key(h)),
    ensures
        holding_keys_unique(hs.push(h)),
        holdings_map(hs.push(h)) == holdings_map(hs).insert(holding_key(h), h@),
{
    let n = hs.push(h);
    assert forall|i: int, j: int|
        0 <= i < n.len() && 0 <= j < n.len() && i != j implies holding_key(#[trigger] n[i])
        != holding_key(#[trigger] n[j]) by {
        if i < hs.len() && j < hs.len() {
            assert(hs[i] == n[i] && hs[j] == n[j]);
        } else if i < hs.len() {
            assert(hs[i] == n[i]);
        } else {
            assert(hs[j] == n[j]);
        }
    }
    lemma_holding_at(n, hs.len() as int);
    assert forall|k: (Seq<u8>, Seq<u8>)| #[trigger] has_holding(n, k) == (has_holding(hs, k) || k
        == holding_key(h)) by {
        if has_holding(hs, k) {
            let i = holding_pos(hs, k);
            assert(n[i] == hs[i]);
        }
        if has_holding(n, k) && k != holding_key(h) {
            let i = holding_pos(n, k);
            assert(n[i] == hs[i]);
        }
    }
    assert forall|k: (Seq<u8>, Seq<u8>)| has_holding(hs, k) implies holding_pos(n, k)
        == holding_pos(hs, k) by {
        let i = holding_pos(hs, k);
        assert(n[i] == hs[i]);
        lemma_holding_at(n, i);
    }
    assert(holdings_map(n) =~= holdings_map(hs).insert(holding_key(h), h@));
}

pub proof fn lemma_holdings_update(hs: Seq<Holding>, i: int, h: Holding)
    requires
        holding_keys_unique(hs),
        0 <= i < hs.len(),
        holding_key(h) == holding_key(hs[i]),
    ensures
        holding_keys_unique(hs.update(i, h)),
        holdings_map(hs.update(i, h)) == holdings_map(hs).insert(holding_key(h), h@),
{
    let n = hs.update(i, h);
    assert forall|a: int, b: int|
        0 <= a < n.len() && 0 <= b < n.len() && a != b implies holding_key(#[trigger] n[a])
        != holding_key(#[trigger] n[b]) by {
        assert(holding_key(n[a]) == holding_key(hs[a]));
        assert(holding_key(n[b]) == holding_key(hs[b]));
    }
    lemma_holding_at(n, i);
    assert forall|k: (Seq<u8>, Seq<u8>)| #[trigger] has_holding(n, k) == has_holding(hs, k) by {
        if has_holding(hs, k) {
            let m = holding_pos(hs, k);
            assert(holding_key(n[m]) == holding_key(hs[m]));
        }
        if has_holding(n, k) {
            let m = holding_pos(n, k);
            assert(holding_key(n[m]) == holding_key(hs[m]));
        }
    }
    assert forall|k: (Seq<u8>, Seq<u8>)| has_holding(hs, k) && k != holding_key(h) implies n[holding_pos(n, k)]
        == hs[holding_pos(hs, k)] by {
        let m = holding_pos(hs, k);
        assert(m != i);
        assert(n[m] == hs[m]);
        lemma_holding_at(n, m);
    }
    assert(holdings_map(n) =~= holdings_map(hs).insert(holding_key(h), h@));
}

// ---------------------------------------------------------------------------
// Records handed in from outside.

/// Records that can stand as a store: book ids occur once, every book has a
/// positive price and a co-author share of at most 100%, `(book, reader)` pairs occur once and every
/// holding refers to a listed book.
pub open spec fn records_valid(books: Seq<BookRecord>, holdings: Seq<Holding>) -> bool {
    &&& book_ids_unique(books)
    &&& forall|i: int| #![trigger books[i]] 0 <= i < books.len() ==> books[i].book.co_author_bps <= 10_000
        && books[i].book.price > 0
    &&& holding_keys_unique(holdings)
    &&& forall|i: int| #![trigger holdings[i]] 0 <= i < holdings.len() ==> has_book(books, holdings[i].book_id@)
}

/// The abstract state that a list of book records and a list of holdings
/// stand for.
pub open spec fn view_of(books: Seq<BookRecord>, holdings: Seq<Holding>) -> KindleView {
    KindleView {
        books: books_map(books),
        royalties: royalties_map(books),
        holdings: holdings_map(holdings),
    }
}

pub proof fn lemma_records_valid(books: Seq<BookRecord>, holdings: Seq<Holding>)
    ensures
        records_valid(books, holdings) <==> (book_ids_unique(books) && holding_keys_unique(holdings)
            && view_of(books, holdings).wf()),
{
    let v = view_of(books, holdings);
    lemma_holdings_finite(holdings);
    assert(v.royalties.dom() =~= v.books.dom());
    if records_valid(books, holdings) {
        assert forall|id: Seq<u8>| #[trigger] v.books.contains_key(id) implies v.books[id].co_author_bps
            <= 10_000 && v.books[id].price > 0 by {
            let i = book_pos(books, id);
            assert(books[i].book.co_author_bps <= 10_000 && books[i].book.price > 0);
        }
        assert forall|k: (Seq<u8>, Seq<u8>)| #[trigger] v.holdings.contains_key(k) implies v.books.contains_key(
            k.0,
        ) by {
            let i = holding_pos(holdings, k);
            assert(has_book(books, holdings[i].book_id@));
        }
    }
    if book_ids_unique(books) && holding_keys_unique(holdings) && v.wf() {
        assert forall|i: int| #![trigger books[i]] 0 <= i < books.len() implies books[i].book.co_author_bps
            <= 10_000 && books[i].book.price > 0 by {
            lemma_book_at(books, i);
            assert(v.books.contains_key(books[i].id@));
        }
        assert forall|i: int| #![trigger holdings[i]] 0 <= i < holdings.len() implies has_book(
            books,
            holdings[i].book_id@,
        ) by {
            lemma_holding_at(holdings, i);
            assert(v.holdings.contains_key(holding_key(holdings[i])));
        }
    }
}

// ---------------------------------------------------------------------------
// Lookups.

/// Byte-wise equality of two identifiers.
pub fn same_bytes(a: &Vec<u8>, b: &Vec<u8>) -> (eq: bool)
    ensures
        eq == (a@ == b@),
{
    if a.len() != b.len() {
        return false;
    }
    let mut i: usize = 0;
    while i < a.len()
        invariant
            a@.len() == b@.len(),
            i <= a@.len(),
            forall|j: int| 0 <= j < i ==> a@[j] == b@[j],
        decreases a@.len() - i,
    {
        if a[i] != b[i] {
            return false;
        }
        i = i + 1;
    }
    assert(a@ =~= b@);
    true
}

/// Position of the book `id` in `recs`, if it is there.
pub fn find_book(recs: &Vec<BookRecord>, id: &Vec<u8>) -> (pos: Option<usize>)
    ensures
        match pos {
            Some(i) => i < recs@.len() && recs@[i as int].id@ == id@,
            None => !has_book(recs@, id@),
        },
{
    let mut i: usize = 0;
    while i < recs.len()
        invariant
            i <= recs@.len(),
            forall|j: int| 0 <= j < i ==> recs@[j].id@ != id@,
        decreases recs@.len() - i,
    {
        if same_bytes(&recs[i].id, id) {
            return Some(i);
        }
        i = i + 1;
    }
    None
}

/// Position of the holding of `reader` for `book_id` in `hs`, if it is there.
pub fn find_holding(hs: &Vec<Holding>, book_id: &Vec<u8>, reader: &Vec<u8>) -> (pos: Option<
    usize,
>)
    ensures
        match pos {
            Some(i) => i < hs@.len() && holding_key(hs@[i as int]) == (book_id@, reader@),
            None => !has_holding(hs@, (book_id@, reader@)),
        },
{
    let mut i: usize = 0;
    while i < hs.len()
        invariant
            i <= hs@.len(),
            forall|j: int| 0 <= j < i ==> holding_key(hs@[j]) != (book_id@, reader@),
        decreases hs@.len() - i,
    {
        if same_bytes(&hs[i].book_id, book_id) && same_bytes(&hs[i].reader, reader) {
            return Some(i);
        }
        i = i + 1;
    }
    None
}

} // verus!
