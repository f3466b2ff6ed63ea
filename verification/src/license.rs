use vstd::prelude::*;

verus! {

/// Byte `k` (0..8, least significant first) of `x`, as `to_le_bytes` gives it.
pub open spec fn le_byte(x: u64, k: int) -> u8 {
    ((x >> ((8 * k) as u64)) & 0xff) as u8
}

/// Byte `j` (0..12) of the folded content hash: the content bytes at `j`,
/// `j + 12` and, where it exists, `j + 24`, combined by xor.
pub open spec fn content_fold(content_hash: Seq<u8>, j: int) -> u8 {
    if j + 24 < 32 {
        content_hash[j] ^ content_hash[j + 12] ^ content_hash[j + 24]
    } else {
        content_hash[j] ^ content_hash[j + 12]
    }
}

/// Byte `i` of the license hash. Bytes 0..8 carry the reader's host value,
/// bytes 8..16 the book id's host value and bytes 16..20 the ledger sequence
/// of the purchase, each least significant byte first; bytes 20..32 carry
/// the book's content hash folded to 12 bytes.
pub open spec fn license_byte(
    content_hash: Seq<u8>,
    sequence: u32,
    book_id_bits: u64,
    reader_bits: u64,
    i: int,
) -> u8 {
    if i < 8 {
        le_byte(reader_bits, i)
    } else if i < 16 {
        le_byte(book_id_bits, i - 8)
    } else if i < 20 {
        le_byte(sequence as u64, i - 16)
    } else {
        content_fold(content_hash, i - 20)
    }
}

/// The 32-byte license hash issued for a purchase.
pub open spec fn license_hash_of(
    content_hash: Seq<u8>,
    sequence: u32,
    book_id_bits: u64,
    reader_bits: u64,
) -> Seq<u8> {
    Seq::new(32, |i: int| license_byte(content_hash, sequence, book_id_bits, reader_bits, i))
}

fn le_byte_exec(x: u64, k: usize) -> (b: u8)
    requires
        k < 8,
    ensures
        b == le_byte(x, k as int),
{
    let shift: u64 = 8 * (k as u64);
    ((x >> shift) & 0xff) as u8
}

/// Derives the license hash of a purchase from the book's content hash, the
/// ledger sequence of the purchase and the 64-bit host values of the book id
/// and of the reader.
pub fn compute_license_hash(
    content_hash: &[u8; 32],
    sequence: u32,
    book_id_bits: u64,
    reader_bits: u64,
) -> (hash: [u8; 32])
    ensures
        hash@ == license_hash_of(content_hash@, sequence, book_id_bits, reader_bits),
{
    let mut mixed: [u8; 32] = [0u8; 32];
    let mut i: usize = 0;
    while i < 32
        invariant
            i <= 32,
            mixed@.len() == 32,
            content_hash@.len() == 32,
            forall|j: int|
                0 <= j < i ==> mixed@[j] == license_byte(
                    content_hash@,
                    sequence,
                    book_id_bits,
                    reader_bits,
                    j,
                ),
        decreases 32 - i,
    {
        let byte: u8 = if i < 8 {
            le_byte_exec(reader_bits, i)
        } else if i < 16 {
            le_byte_exec(book_id_bits, i - 8)
        } else if i < 20 {
            le_byte_exec(sequence as u64, i - 16)
        } else {
            let j: usize = i - 20;
            if j + 24 < 32 {
                content_hash[j] ^ content_hash[j + 12] ^ content_hash[j + 24]
            } else {
                content_hash[j] ^ content_hash[j + 12]
            }
        };
        mixed[i] = byte;
        i = i + 1;
    }
    proof {
        assert(mixed@ =~= license_hash_of(content_hash@, sequence, book_id_bits, reader_bits));
    }
    mixed
}

proof fn lemma_le_bytes_determine_u64(x: u64, y: u64)
    requires
        forall|k: int| 0 <= k < 8 ==> le_byte(x, k) == le_byte(y, k),
    ensures
        x == y,
{
    assert(le_byte(x, 0) == le_byte(y, 0));
    assert(le_byte(x, 1) == le_byte(y, 1));
    assert(le_byte(x, 2) == le_byte(y, 2));
    assert(le_byte(x, 3) == le_byte(y, 3));
    assert(le_byte(x, 4) == le_byte(y, 4));
    assert(le_byte(x, 5) == le_byte(y, 5));
    assert(le_byte(x, 6) == le_byte(y, 6));
    assert(le_byte(x, 7) == le_byte(y, 7));
    assert(x == y) by (bit_vector)
        requires
            ((x >> 0u64) & 0xff) as u8 == ((y >> 0u64) & 0xff) as u8,
            ((x >> 8u64) & 0xff) as u8 == ((y >> 8u64) & 0xff) as u8,
            ((x >> 16u64) & 0xff) as u8 == ((y >> 16u64) & 0xff) as u8,
            ((x >> 24u64) & 0xff) as u8 == ((y >> 24u64) & 0xff) as u8,
            ((x >> 32u64) & 0xff) as u8 == ((y >> 32u64) & 0xff) as u8,
            ((x >> 40u64) & 0xff) as u8 == ((y >> 40u64) & 0xff) as u8,
            ((x >> 48u64) & 0xff) as u8 == ((y >> 48u64) & 0xff) as u8,
            ((x >> 56u64) & 0xff) as u8 == ((y >> 56u64) & 0xff) as u8,
    ;
}

proof fn lemma_le_bytes_determine_u32(x: u32, y: u32)
    requires
        forall|k: int| 0 <= k < 4 ==> #[trigger] le_byte(x as u64, k) == le_byte(y as u64, k),
    ensures
        x == y,
{
    let a = x as u64;
    let b = y as u64;
    assert(le_byte(a, 0) == le_byte(b, 0));
    assert(le_byte(a, 1) == le_byte(b, 1));
    assert(le_byte(a, 2) == le_byte(b, 2));
    assert(le_byte(a, 3) == le_byte(b, 3));
    assert(a == b) by (bit_vector)
        requires
            a < 0x1_0000_0000,
            b < 0x1_0000_0000,
            ((a >> 0u64) & 0xff) as u8 == ((b >> 0u64) & 0xff) as u8,
            ((a >> 8u64) & 0xff) as u8 == ((b >> 8u64) & 0xff) as u8,
            ((a >> 16u64) & 0xff) as u8 == ((b >> 16u64) & 0xff) as u8,
            ((a >> 24u64) & 0xff) as u8 == ((b >> 24u64) & 0xff) as u8,
    ;
}

/// The license hash identifies the purchase: two purchases receive the same
/// license hash only if they were made by the same reader (host value), of
/// the same book (host value), at the same ledger sequence, whatever the
/// content hashes of the books.
pub proof fn lemma_license_hash_identifies_purchase(
    content_a: Seq<u8>,
    sequence_a: u32,
    book_a: u64,
    reader_a: u64,
    content_b: Seq<u8>,
    sequence_b: u32,
    book_b: u64,
    reader_b: u64,
)
    requires
        license_hash_of(content_a, sequence_a, book_a, reader_a) == license_hash_of(
            content_b,
            sequence_b,
            book_b,
            reader_b,
        ),
    ensures
        reader_a == reader_b,
        book_a == book_b,
        sequence_a == sequence_b,
{
    let ha = license_hash_of(content_a, sequence_a, book_a, reader_a);
    let hb = license_hash_of(content_b, sequence_b, book_b, reader_b);
    assert forall|k: int| 0 <= k < 8 implies le_byte(reader_a, k) == le_byte(reader_b, k) by {
        assert(ha[k] == license_byte(content_a, sequence_a, book_a, reader_a, k));
        assert(hb[k] == license_byte(content_b, sequence_b, book_b, reader_b, k));
        assert(ha[k] == hb[k]);
    }
    assert forall|k: int| 0 <= k < 8 implies le_byte(book_a, k) == le_byte(book_b, k) by {
        assert(ha[k + 8] == license_byte(content_a, sequence_a, book_a, reader_a, k + 8));
        assert(hb[k + 8] == license_byte(content_b, sequence_b, book_b, reader_b, k + 8));
        assert(ha[k + 8] == hb[k + 8]);
    }
    assert forall|k: int| 0 <= k < 4 implies #[trigger] le_byte(sequence_a as u64, k) == le_byte(
        sequence_b as u64,
        k,
    ) by {
        assert(ha[k + 16] == license_byte(content_a, sequence_a, book_a, reader_a, k + 16));
        assert(hb[k + 16] == license_byte(content_b, sequence_b, book_b, reader_b, k + 16));
        assert(ha[k + 16] == hb[k + 16]);
    }
    lemma_le_bytes_determine_u64(reader_a, reader_b);
    lemma_le_bytes_determine_u64(book_a, book_b);
    lemma_le_bytes_determine_u32(sequence_a, sequence_b);
}

proof fn lemma_xor_cancel(a: u8, b: u8, k: u8)
    ensures
        (a ^ k == b ^ k) == (a == b),
        (k ^ a == k ^ b) == (a == b),
{
    assert((a ^ k == b ^ k) == (a == b)) by (bit_vector);
    assert((k ^ a == k ^ b) == (a == b)) by (bit_vector);
}

/// Changing one byte of a book's content hash changes the license hash of
/// a purchase, for the same reader, book and ledger sequence.
pub proof fn lemma_license_hash_follows_content(
    content_a: Seq<u8>,
    content_b: Seq<u8>,
    k: int,
    sequence: u32,
    book_id_bits: u64,
    reader_bits: u64,
)
    requires
        content_a.len() == 32,
        content_b.len() == 32,
        0 <= k < 32,
        content_a[k] != content_b[k],
        forall|i: int| 0 <= i < 32 && i != k ==> content_a[i] == content_b[i],
    ensures
        license_hash_of(content_a, sequence, book_id_bits, reader_bits) != license_hash_of(
            content_b,
            sequence,
            book_id_bits,
            reader_bits,
        ),
{
    let j = k % 12;
    let ha = license_hash_of(content_a, sequence, book_id_bits, reader_bits);
    let hb = license_hash_of(content_b, sequence, book_id_bits, reader_bits);
    assert(ha[j + 20] == content_fold(content_a, j));
    assert(hb[j + 20] == content_fold(content_b, j));
    let a0 = content_a[j];
    let a1 = content_a[j + 12];
    let b0 = content_b[j];
    let b1 = content_b[j + 12];
    if j + 24 < 32 {
        let a2 = content_a[j + 24];
        let b2 = content_b[j + 24];
        if k == j {
            lemma_xor_cancel(a0, b0, a1);
            lemma_xor_cancel(a0 ^ a1, b0 ^ a1, a2);
        } else if k == j + 12 {
            lemma_xor_cancel(a1, b1, a0);
            lemma_xor_cancel(a0 ^ a1, a0 ^ b1, a2);
        } else {
            assert(k == j + 24);
            lemma_xor_cancel(a2, b2, a0 ^ a1);
        }
    } else {
        if k == j {
            lemma_xor_cancel(a0, b0, a1);
        } else {
            assert(k == j + 12);
            lemma_xor_cancel(a1, b1, a0);
        }
    }
    assert(ha[j + 20] != hb[j + 20]);
}

} // verus!
