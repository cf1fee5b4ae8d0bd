//! A seeded 32-bit hash over the rows of one or more columns.
//!
//! Each value is turned into bytes: an integer into its two's complement at
//! the width of its column, the lowest byte first; a decimal into the
//! sixteen bytes of its unscaled integer, likewise; a string into its UTF-8
//! bytes; a null into a marker that no value's bytes equal. The bytes are
//! hashed with the hash of the columns before as the seed.

use crate::bytes::{int_bytes, lemma_le_bytes_len, signed_le_bytes};
use crate::column::{columns_view, result_view, Column, ColumnModel, IntWidth};
use crate::error::ExtFunctionError;
use vstd::prelude::*;

verus! {

pub open spec fn rotate_left(x: u32, r: u32) -> u32 {
    (x << r) | (x >> ((32 - r) as u32))
}

/// The mixing of one block of input.
pub open spec fn mix_k1(k: u32) -> u32 {
    rotate_left(k.wrapping_mul(0xcc9e2d51), 15).wrapping_mul(0x1b873593)
}

/// The mixing of a block into the running hash.
pub open spec fn mix_h1(h: u32, k: u32) -> u32 {
    rotate_left(h ^ k, 13).wrapping_mul(5).wrapping_add(0xe6546b64)
}

/// The final mixing, with the length of the input.
pub open spec fn fmix(h: u32, len: u32) -> u32 {
    let a = h ^ len;
    let b = (a ^ (a >> 16)).wrapping_mul(0x85ebca6b);
    let c = (b ^ (b >> 13)).wrapping_mul(0xc2b2ae35);
    c ^ (c >> 16)
}

/// The four bytes at `i` as one number, the lowest byte first.
pub open spec fn word_at(data: Seq<u8>, i: int) -> u32 {
    (data[i] + data[i + 1] * 0x100 + data[i + 2] * 0x1_0000 + data[i + 3] * 0x100_0000) as u32
}

/// A byte read as a signed number and widened to 32 bits.
pub open spec fn sign_extended(b: u8) -> u32 {
    if b < 0x80 {
        b as u32
    } else {
        (0xffff_ff00 + b) as u32
    }
}

/// The running hash after the first `n` four-byte blocks.
pub open spec fn hash_words(data: Seq<u8>, n: nat, seed: u32) -> u32
    decreases n,
{
    if n == 0 {
        seed
    } else {
        mix_h1(hash_words(data, (n - 1) as nat, seed), mix_k1(word_at(data, 4 * (n - 1))))
    }
}

/// The running hash `h` after `n` more single bytes from `start`, each
/// mixed in as a block of its own.
pub open spec fn hash_tail(data: Seq<u8>, start: int, n: nat, h: u32) -> u32
    decreases n,
{
    if n == 0 {
        h
    } else {
        mix_h1(hash_tail(data, start, (n - 1) as nat, h), mix_k1(sign_extended(data[start + n - 1])))
    }
}

/// The hash of a sequence of bytes: the whole four-byte blocks, then the
/// bytes left over one by one, then the final mixing with the length.
pub open spec fn murmur3_bytes(data: Seq<u8>, seed: u32) -> u32 {
    let words = data.len() / 4;
    let body = hash_words(data, words, seed);
    let tail = hash_tail(data, (4 * words) as int, data.len() % 4, body);
    fmix(tail, (data.len() % 0x1_0000_0000) as u32)
}

/// The bytes that stand for a null.
pub open spec fn null_marker() -> Seq<u8> {
    seq![0xffu8, 0xffu8, 0xffu8]
}

/// The signed 32-bit integer with the same bits.
pub open spec fn as_signed(h: u32) -> int {
    if h < 0x8000_0000 {
        h as int
    } else {
        h - 0x1_0000_0000
    }
}

/// The unsigned 32-bit integer with the same bits.
pub open spec fn as_unsigned(v: i32) -> u32 {
    if v >= 0 {
        v as u32
    } else {
        (v + 0x1_0000_0000) as u32
    }
}

/// Whether the values of a column can be hashed.
pub open spec fn hashable(col: ColumnModel) -> bool {
    col is Int || col is Decimal || col is Utf8
}

/// The bytes that row `i` of a column is hashed as.
pub open spec fn cell_bytes(col: ColumnModel, i: int) -> Seq<u8> {
    match col {
        ColumnModel::Int { width, values } => match values[i] {
            Some(v) => int_bytes(v, width.bytes_spec()),
            None => null_marker(),
        },
        ColumnModel::Decimal { values, .. } => match values[i] {
            Some(v) => int_bytes(v, 16),
            None => null_marker(),
        },
        ColumnModel::Utf8(values) => match values[i] {
            Some(t) => vstd::utf8::encode_utf8(t),
            None => null_marker(),
        },
        _ => Seq::empty(),
    }
}

/// The hash of row `i` over the first `n` columns: each column's bytes
/// hashed with the hash of the columns before it as the seed.
pub open spec fn row_hash(cols: Seq<ColumnModel>, n: nat, i: int, seed: u32) -> u32
    decreases n,
{
    if n == 0 {
        seed
    } else {
        murmur3_bytes(cell_bytes(cols[n - 1], i), row_hash(cols, (n - 1) as nat, i, seed))
    }
}

/// Whether the columns can be hashed together: at least one, all hashable,
/// all of one length.
pub open spec fn hash_accepts(cols: Seq<ColumnModel>) -> bool {
    &&& cols.len() > 0
    &&& forall|c: int| 0 <= c < cols.len() ==> hashable(#[trigger] cols[c])
    &&& forall|c: int| 0 <= c < cols.len() ==> (#[trigger] cols[c]).len() == cols[0].len()
}

/// The column of the hashes of every row: 32-bit integers, none null.
pub open spec fn hash_column(cols: Seq<ColumnModel>, seed: i32) -> ColumnModel {
    ColumnModel::Int {
        width: IntWidth::W32,
        values: Seq::new(
            cols[0].len(),
            |i: int| Some(as_signed(row_hash(cols, cols.len(), i, as_unsigned(seed)))),
        ),
    }
}

/// `Murmur3Hash` on columns and a seed. Refused: no column, a column of
/// JSON values or of arrays, columns of different lengths.
pub open spec fn murmur3_hash_model(cols: Seq<ColumnModel>, seed: i32) -> Result<
    ColumnModel,
    ExtFunctionError,
> {
    if hash_accepts(cols) {
        Ok(hash_column(cols, seed))
    } else {
        Err(ExtFunctionError::InvalidArguments)
    }
}

fn rotl(x: u32, r: u32) -> (y: u32)
    requires
        0 < r < 32,
    ensures
        y == rotate_left(x, r),
{
    (x << r) | (x >> (32 - r))
}

fn mix_k1_of(k: u32) -> (r: u32)
    ensures
        r == mix_k1(k),
{
    rotl(k.wrapping_mul(0xcc9e2d51), 15).wrapping_mul(0x1b873593)
}

fn mix_h1_of(h: u32, k: u32) -> (r: u32)
    ensures
        r == mix_h1(h, k),
{
    rotl(h ^ k, 13).wrapping_mul(5).wrapping_add(0xe6546b64)
}

fn fmix_of(h: u32, len: u32) -> (r: u32)
    ensures
        r == fmix(h, len),
{
    let a: u32 = h ^ len;
    let b: u32 = (a ^ (a >> 16)).wrapping_mul(0x85ebca6b);
    let c: u32 = (b ^ (b >> 13)).wrapping_mul(0xc2b2ae35);
    c ^ (c >> 16)
}

/// The hash of a sequence of bytes.
pub fn murmur3(data: &[u8], seed: u32) -> (h: u32)
    ensures
        h == murmur3_bytes(data@, seed),
{
    let len: usize = data.len();
    let words: usize = len / 4;
    let mut h: u32 = seed;
    let mut w: usize = 0;
    while w < words
        invariant
            w <= words,
            words == len / 4,
            len == data@.len(),
            h == hash_words(data@, w as nat, seed),
        decreases words - w,
    {
        let i: usize = 4 * w;
        let word: u32 = data[i] as u32 + data[i + 1] as u32 * 0x100 + data[i + 2] as u32 * 0x1_0000
            + data[i + 3] as u32 * 0x100_0000;
        h = mix_h1_of(h, mix_k1_of(word));
        w += 1;
    }
    let start: usize = 4 * words;
    let ghost body = h;
    let mut t: usize = 0;
    while start + t < len
        invariant
            start == 4 * words,
            words == len / 4,
            len == data@.len(),
            start + t <= len,
            h == hash_tail(data@, start as int, t as nat, body),
        decreases len - start - t,
    {
        let b: u8 = data[start + t];
        let wide: u32 = if b < 0x80 {
            b as u32
        } else {
            0xffff_ff00u32 + b as u32
        };
        h = mix_h1_of(h, mix_k1_of(wide));
        t += 1;
    }
    let short: u32 = (len as u64 % 0x1_0000_0000u64) as u32;
    fmix_of(h, short)
}

fn is_hashable(col: &Column) -> (r: bool)
    ensures
        r == hashable(col@),
{
    match col {
        Column::Int { .. } => true,
        Column::Decimal { .. } => true,
        Column::Utf8(_) => true,
        Column::Json(_) => false,
        Column::List(_) => false,
    }
}

fn accepts(cols: &Vec<Column>) -> (r: bool)
    ensures
        r == hash_accepts(columns_view(cols@)),
{
    if cols.len() == 0 {
        return false;
    }
    let rows: usize = cols[0].len();
    let mut c: usize = 0;
    while c < cols.len()
        invariant
            c <= cols.len(),
            cols.len() > 0,
            rows == cols[0]@.len(),
            forall|k: int| 0 <= k < c ==> hashable(#[trigger] columns_view(cols@)[k]),
            forall|k: int| 0 <= k < c ==> (#[trigger] columns_view(cols@)[k]).len() == rows,
        decreases cols.len() - c,
    {
        if !is_hashable(&cols[c]) || cols[c].len() != rows {
            assert(columns_view(cols@)[c as int] == cols[c as int]@);
            return false;
        }
        c += 1;
    }
    true
}

fn null_hash(seed: u32) -> (h: u32)
    ensures
        h == murmur3_bytes(null_marker(), seed),
{
    let marker: Vec<u8> = vec![0xffu8, 0xffu8, 0xffu8];
    assert(marker@ =~= null_marker());
    murmur3(marker.as_slice(), seed)
}

fn cell_hash(col: &Column, i: usize, seed: u32) -> (h: u32)
    requires
        hashable(col@),
        i < col@.len(),
    ensures
        h == murmur3_bytes(cell_bytes(col@, i as int), seed),
{
    match col {
        Column::Int { width, values } => match values[i] {
            Some(v) => {
                let bytes = signed_le_bytes(v as i128, width.bytes());
                murmur3(bytes.as_slice(), seed)
            },
            None => null_hash(seed),
        },
        Column::Decimal { values, .. } => match values[i] {
            Some(v) => {
                let bytes = signed_le_bytes(v, 16);
                murmur3(bytes.as_slice(), seed)
            },
            None => null_hash(seed),
        },
        Column::Utf8(values) => match &values[i] {
            Some(t) => murmur3(t.as_str().as_bytes(), seed),
            None => null_hash(seed),
        },
        _ => seed,
    }
}

/// `Murmur3Hash`: the hash of every row over the given columns, in their
/// order, from the given seed. Fails where there is no column, where a
/// column holds what cannot be hashed, and where the columns differ in
/// length.
pub fn spark_murmur3_hash(cols: &Vec<Column>, seed: i32) -> (r: Result<Column, ExtFunctionError>)
    ensures
        result_view(r) == murmur3_hash_model(columns_view(cols@), seed),
{
    if !accepts(cols) {
        return Err(ExtFunctionError::InvalidArguments);
    }
    let ghost models = columns_view(cols@);
    let rows: usize = cols[0].len();
    let start: u32 = if seed >= 0 {
        seed as u32
    } else {
        (seed as i64 + 0x1_0000_0000i64) as u32
    };
    let mut values: Vec<Option<i64>> = Vec::new();
    let mut i: usize = 0;
    while i < rows
        invariant
            i <= rows,
            models == columns_view(cols@),
            hash_accepts(models),
            rows == models[0].len(),
            start == as_unsigned(seed),
            values.len() == i,
            forall|j: int|
                0 <= j < i ==> #[trigger] values[j] == Some(
                    as_signed(row_hash(models, models.len(), j, start)) as i64,
                ),
        decreases rows - i,
    {
        let mut h: u32 = start;
        let mut c: usize = 0;
        while c < cols.len()
            invariant
                c <= cols.len(),
                i < rows,
                models == columns_view(cols@),
                hash_accepts(models),
                rows == models[0].len(),
                h == row_hash(models, c as nat, i as int, start),
            decreases cols.len() - c,
        {
            assert(models[c as int] == cols[c as int]@);
            h = cell_hash(&cols[c], i, h);
            c += 1;
        }
        let signed: i64 = if h < 0x8000_0000 {
            h as i64
        } else {
            h as i64 - 0x1_0000_0000i64
        };
        values.push(Some(signed));
        i += 1;
    }
    let out = Column::Int { width: IntWidth::W32, values: values };
    assert(out@->Int_values =~= hash_column(models, seed)->Int_values);
    Ok(out)
}

/// Every hash is held by 32 bits.
pub proof fn lemma_hashes_are_well_formed(cols: Seq<ColumnModel>, seed: i32)
    ensures
        murmur3_hash_model(cols, seed) matches Ok(out) ==> out.well_formed(),
{
}

/// The rows of a column from `from` up to, not including, `to`.
pub open spec fn slice_rows(col: ColumnModel, from: int, to: int) -> ColumnModel {
    match col {
        ColumnModel::Int { width, values } => ColumnModel::Int {
            width: width,
            values: values.subrange(from, to),
        },
        ColumnModel::Decimal { precision, scale, values } => ColumnModel::Decimal {
            precision: precision,
            scale: scale,
            values: values.subrange(from, to),
        },
        ColumnModel::Utf8(values) => ColumnModel::Utf8(values.subrange(from, to)),
        ColumnModel::Json(values) => ColumnModel::Json(values.subrange(from, to)),
        ColumnModel::List(rows) => ColumnModel::List(rows.subrange(from, to)),
    }
}

/// The same rows of every column of a batch.
pub open spec fn slice_batch(cols: Seq<ColumnModel>, from: int, to: int) -> Seq<ColumnModel> {
    Seq::new(cols.len(), |c: int| slice_rows(cols[c], from, to))
}

/// The hash of a row does not depend on the batch it is in: hashed inside
/// any run of rows cut out of a batch, and so also alone, a row has the
/// hash it has in the whole batch.
pub proof fn lemma_hash_ignores_batch_boundaries(
    cols: Seq<ColumnModel>,
    from: int,
    to: int,
    i: int,
    seed: i32,
)
    requires
        hash_accepts(cols),
        0 <= from <= i < to <= cols[0].len(),
    ensures
        hash_accepts(slice_batch(cols, from, to)),
        hash_column(slice_batch(cols, from, to), seed)->Int_values[i - from] == hash_column(
            cols,
            seed,
        )->Int_values[i],
{
    let part = slice_batch(cols, from, to);
    assert forall|c: int| 0 <= c < part.len() implies hashable(#[trigger] part[c]) && part[c].len()
        == to - from by {
        assert(hashable(cols[c]));
        assert(cols[c].len() == cols[0].len());
    }
    lemma_row_hash_of_slice(cols, cols.len(), from, to, i, as_unsigned(seed));
}

proof fn lemma_row_hash_of_slice(
    cols: Seq<ColumnModel>,
    n: nat,
    from: int,
    to: int,
    i: int,
    seed: u32,
)
    requires
        n <= cols.len(),
        hash_accepts(cols),
        0 <= from <= i < to <= cols[0].len(),
    ensures
        row_hash(slice_batch(cols, from, to), n, i - from, seed) == row_hash(cols, n, i, seed),
    decreases n,
{
    if n > 0 {
        lemma_row_hash_of_slice(cols, (n - 1) as nat, from, to, i, seed);
        assert(cols[n - 1].len() == cols[0].len());
        assert(hashable(cols[n - 1]));
        assert(cell_bytes(slice_batch(cols, from, to)[n - 1], i - from) == cell_bytes(
            cols[n - 1],
            i,
        ));
    }
}

/// The marker of a null is not the UTF-8 form of any string: no such form
/// starts with the byte `0xff`.
pub proof fn lemma_null_marker_is_no_text(t: Seq<char>)
    ensures
        vstd::utf8::encode_utf8(t) != null_marker(),
{
    let bytes = vstd::utf8::encode_utf8(t);
    if t.len() == 0 {
        assert(bytes.len() == 0);
    } else {
        let s = t[0] as u32;
        assert(((s & 0x7F) as u8) != 0xffu8) by (bit_vector);
        assert((0xC0u8 | ((s >> 6) & 0x1F) as u8) != 0xffu8) by (bit_vector);
        assert((0xE0u8 | ((s >> 12) & 0x0F) as u8) != 0xffu8) by (bit_vector);
        assert((0xF0u8 | ((s >> 18) & 0x7) as u8) != 0xffu8) by (bit_vector);
        let first = vstd::utf8::encode_scalar(s);
        assert(first.len() > 0 && first[0] != 0xffu8);
        assert(bytes[0] == first[0]);
        assert(null_marker()[0] == 0xffu8);
    }
}

/// The marker of a null differs from the bytes of every value that is
/// present: an integer or decimal has one, two, four, eight or sixteen
/// bytes, not three, and no string starts as the marker does.
pub proof fn lemma_null_marker_is_distinguished(col: ColumnModel, i: int)
    requires
        hashable(col),
        0 <= i < col.len(),
        !col.is_null(i),
    ensures
        cell_bytes(col, i) != null_marker(),
{
    match col {
        ColumnModel::Int { width, values } => {
            let v = values[i]->0;
            lemma_le_bytes_len(
                (v % (crate::bytes::pow256(width.bytes_spec()) as int)) as nat,
                width.bytes_spec(),
            );
        },
        ColumnModel::Decimal { values, .. } => {
            let v = values[i]->0;
            lemma_le_bytes_len((v % (crate::bytes::pow256(16) as int)) as nat, 16);
        },
        ColumnModel::Utf8(values) => {
            lemma_null_marker_is_no_text(values[i]->0);
        },
        _ => {},
    }
}

} // verus!
