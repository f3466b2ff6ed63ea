use vstd::prelude::*;

verus! {

/// Basis points denominator: 100% is 10_000 basis points.
pub const BPS_DENOM: u32 = 10_000;

/// The co-author's part of one sale at `price`, with `co_author_bps` basis
/// points going to the co-author (rounded down).
pub open spec fn co_author_share_of(price: u32, co_author_bps: u32) -> int {
    (price as int * co_author_bps as int) / (BPS_DENOM as int)
}

/// The author's part of one sale: what the co-author does not receive.
pub open spec fn author_share_of(price: u32, co_author_bps: u32) -> int {
    price as int - co_author_share_of(price, co_author_bps)
}

/// Splits one sale at `price` into `(author_share, co_author_share)`.
pub fn royalty_shares(price: u32, co_author_bps: u32) -> (shares: (u64, u64))
    requires
        co_author_bps <= BPS_DENOM,
    ensures
        shares.0 == author_share_of(price, co_author_bps),
        shares.1 == co_author_share_of(price, co_author_bps),
        shares.0 + shares.1 == price,
{
    proof {
        lemma_royalty_split(price, co_author_bps);
    }
    let gross: u64 = (price as u64) * (co_author_bps as u64);
    let co_author_share: u64 = gross / (BPS_DENOM as u64);
    let author_share: u64 = (price as u64) - co_author_share;
    (author_share, co_author_share)
}

/// The split of a sale never pays out more than the price: both shares are
/// non-negative, they add up to the price exactly, a zero ratio gives the
/// co-author nothing and the full ratio gives the co-author everything.
pub proof fn lemma_royalty_split(price: u32, co_author_bps: u32)
    requires
        co_author_bps <= BPS_DENOM,
    ensures
        0 <= co_author_share_of(price, co_author_bps) <= price,
        0 <= author_share_of(price, co_author_bps) <= price,
        author_share_of(price, co_author_bps) + co_author_share_of(price, co_author_bps) == price,
        co_author_bps == 0 ==> co_author_share_of(price, co_author_bps) == 0,
        co_author_bps == BPS_DENOM ==> co_author_share_of(price, co_author_bps) == price,
        price as int * co_author_bps as int <= u64::MAX,
{
    let p = price as int;
    let b = co_author_bps as int;
    assert(0 <= p * b <= p * 10000) by (nonlinear_arith)
        requires
            0 <= p,
            0 <= b <= 10000,
    ;
    assert(p * b <= 0xffff_ffff * 10000) by (nonlinear_arith)
        requires
            0 <= p <= 0xffff_ffff,
            0 <= b <= 10000,
    ;
    assert((p * 10000) / 10000 == p) by (nonlinear_arith);
    assert(0 <= (p * b) / 10000 <= p) by (nonlinear_arith)
        requires
            0 <= p * b <= p * 10000,
            0 <= p,
    ;
}

} // verus!
