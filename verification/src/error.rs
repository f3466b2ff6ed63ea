use vstd::prelude::*;

verus! {

/// Why a request to the ebook store was turned down.
#[derive(Clone, Copy, Debug, PartialEq, Eq, Structural)]
pub enum EbookError {
    /// A book cannot be published with a price of zero.
    ZeroPrice,
    /// The co-author's share exceeds 10_000 basis points.
    ShareTooLarge,
    /// A book is already published under this identifier.
    AlreadyPublished,
    /// No book is published under this identifier.
    BookNotFound,
    /// The reader already holds a license for this book.
    AlreadyOwned,
    /// The reader holds no license for this book.
    NotOwned,
    /// The reader has already been refunded for this book once.
    AlreadyRefunded,
    /// The refund window of the purchase has passed.
    RefundWindowExpired,
}

/// The message that the contract aborts with for each error.
pub open spec fn error_message(e: EbookError) -> Seq<char> {
    match e {
        EbookError::ZeroPrice => "price must be greater than zero"@,
        EbookError::ShareTooLarge => "co_author_bps must be <= 10000"@,
        EbookError::AlreadyPublished => "book already published"@,
        EbookError::BookNotFound => "book not found"@,
        EbookError::AlreadyOwned => "reader already owns a license for this book"@,
        EbookError::NotOwned => "reader does not own a license for this book"@,
        EbookError::AlreadyRefunded => "book already refunded for this reader"@,
        EbookError::RefundWindowExpired => "refund window has expired"@,
    }
}

impl EbookError {
    /// The message that the contract aborts with for this error.
    pub fn message(&self) -> (text: &'static str)
        ensures
            text@ == error_message(*self),
    {
        match self {
            EbookError::ZeroPrice => "price must be greater than zero",
            EbookError::ShareTooLarge => "co_author_bps must be <= 10000",
            EbookError::AlreadyPublished => "book already published",
            EbookError::BookNotFound => "book not found",
            EbookError::AlreadyOwned => "reader already owns a license for this book",
            EbookError::NotOwned => "reader does not own a license for this book",
            EbookError::AlreadyRefunded => "book already refunded for this reader",
            EbookError::RefundWindowExpired => "refund window has expired",
        }
    }
}

} // verus!
