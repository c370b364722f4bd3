//! The block scanner and the per-block structural parser: a chunk is cut
//! into 8192-byte blocks, candidate table-data blocks are picked out by the
//! two-byte filter, and each candidate either keeps its raw bytes
//! (consolidation) or is walked for its rows (extraction).

use vstd::prelude::*;
use crate::BLOCK_SIZE;
use crate::decoder::as_i8;

verus! {

/// Little-endian sixteen-bit read.
pub open spec fn u16_at(b: Seq<u8>, i: int) -> int {
    b[i] + 256 * b[i + 1]
}

/// Little-endian sixteen-bit read, taken as signed.
pub open spec fn i16_at(b: Seq<u8>, i: int) -> int {
    if u16_at(b, i) < 32768 {
        u16_at(b, i)
    } else {
        u16_at(b, i) - 65536
    }
}

/// Little-endian thirty-two-bit read.
pub open spec fn u32_at(b: Seq<u8>, i: int) -> int {
    b[i] + 0x100 * b[i + 1] + 0x10000 * b[i + 2] + 0x1000000 * b[i + 3]
}

/// How many whole blocks a chunk holds.
pub open spec fn num_blocks(chunk: Seq<u8>) -> int {
    chunk.len() as int / 8192
}

/// The bytes of the chunk's `k`-th block.
pub open spec fn block_at(chunk: Seq<u8>, k: int) -> Seq<u8> {
    chunk.subrange(8192 * k, 8192 * (k + 1))
}

/// The table-data filter: block type six, sub-type one.
pub open spec fn is_candidate(chunk: Seq<u8>, k: int) -> bool {
    chunk[8192 * k] == 6 && chunk[8192 * k + 20] == 1
}

/// The object id a block belongs to.
pub open spec fn block_objd(b: Seq<u8>) -> int {
    u32_at(b, 24)
}

/// What consolidation keeps from a chunk's first `n` blocks: for each
/// candidate, in offset order, its object id and its full raw bytes.
pub open spec fn consolidate_spec(chunk: Seq<u8>, n: int) -> Seq<(u32, Seq<u8>)>
    decreases n,
{
    if n <= 0 {
        Seq::empty()
    } else {
        consolidate_spec(chunk, n - 1) + (if is_candidate(chunk, n - 1) {
            seq![((block_objd(block_at(chunk, n - 1)) as u32), block_at(chunk, n - 1))]
        } else {
            Seq::empty()
        })
    }
}

/// The mathematical contents of a vector of consolidation entries.
pub open spec fn consolidate_view(v: Seq<(u32, Vec<u8>)>) -> Seq<(u32, Seq<u8>)> {
    v.map_values(|p: (u32, Vec<u8>)| (p.0, p.1@))
}

/// Copy a byte range out of a vector.
fn subvec(b: &Vec<u8>, from: usize, to: usize) -> (r: Vec<u8>)
    requires
        from <= to <= b@.len(),
    ensures
        r@ == b@.subrange(from as int, to as int),
{
    let mut v: Vec<u8> = Vec::new();
    let mut i = from;
    while i < to
        invariant
            from <= i <= to <= b@.len(),
            v@ == b@.subrange(from as int, i as int),
        decreases to - i,
    {
        v.push(b[i]);
        i = i + 1;
        proof {
            assert(v@ =~= b@.subrange(from as int, i as int));
        }
    }
    v
}

/// Little-endian thirty-two-bit read, in executable form.
fn read_u32(b: &Vec<u8>, at: usize) -> (r: u32)
    requires
        at + 4 <= b@.len(),
    ensures
        r as int == u32_at(b@, at as int),
{
    // Binding the length shows the verifier the index sums fit a machine word.
    let n = b.len();
    b[at] as u32 + 0x100 * (b[at + 1] as u32) + 0x10000 * (b[at + 2] as u32) + 0x1000000 * (b[at
        + 3] as u32)
}

/// Little-endian signed sixteen-bit read, in executable form.
fn read_i16(b: &Vec<u8>, at: usize) -> (r: i64)
    requires
        at + 2 <= b@.len(),
    ensures
        r as int == i16_at(b@, at as int),
{
    // Binding the length shows the verifier the index sum fits a machine word.
    let n = b.len();
    let v: i64 = b[at] as i64 + 256 * (b[at + 1] as i64);
    if v < 32768 {
        v
    } else {
        v - 65536
    }
}

/// Scan a chunk and keep, for every candidate block in offset order, its
/// object id and its raw 8192 bytes.
#[verifier::loop_isolation(false)]
pub fn consolidate_chunk(chunk_bytes: &Vec<u8>) -> (r: Vec<(u32, Vec<u8>)>)
    ensures
        consolidate_view(r@) == consolidate_spec(chunk_bytes@, num_blocks(chunk_bytes@)),
{
    let n = chunk_bytes.len() / BLOCK_SIZE;
    let mut out: Vec<(u32, Vec<u8>)> = Vec::new();
    let mut position: usize = 0;
    while position < n
        invariant
            n == num_blocks(chunk_bytes@),
            position <= n,
            consolidate_view(out@) == consolidate_spec(chunk_bytes@, position as int),
        decreases n - position,
    {
        let base = position * BLOCK_SIZE;
        if chunk_bytes[base] == 6 && chunk_bytes[base + 20] == 1 {
            let block = subvec(chunk_bytes, base, base + BLOCK_SIZE);
            let objd = read_u32(&block, 24);
            out.push((objd, block));
        }
        position = position + 1;
        proof {
            assert(consolidate_view(out@) =~= consolidate_spec(chunk_bytes@, position as int));
        }
    }
    out
}

/// How many of the chunk's first `n` blocks pass the filter.
pub open spec fn candidate_count(chunk: Seq<u8>, n: int) -> int
    decreases n,
{
    if n <= 0 {
        0
    } else {
        candidate_count(chunk, n - 1) + if is_candidate(chunk, n - 1) {
            1int
        } else {
            0int
        }
    }
}

/// Law: consolidation processes a block exactly when it passes the
/// two-byte filter. Every candidate block contributes exactly one entry,
/// in offset order, carrying its object id and its full 8192 raw bytes;
/// non-candidates contribute nothing, so the entry count is the candidate
/// count.
pub proof fn lemma_consolidate_entries(chunk: Seq<u8>, n: int, k: int)
    requires
        0 <= k < n,
        8192 * n <= chunk.len(),
    ensures
        consolidate_spec(chunk, n).len() == candidate_count(chunk, n),
        0 <= candidate_count(chunk, k) <= candidate_count(chunk, n),
        is_candidate(chunk, k) ==> candidate_count(chunk, k) < candidate_count(chunk, n)
            && consolidate_spec(chunk, n)[candidate_count(chunk, k)] == ((block_objd(
            block_at(chunk, k),
        ) as u32), block_at(chunk, k)),
        is_candidate(chunk, k) ==> block_at(chunk, k).len() == 8192,
    decreases n,
{
    if k < n - 1 {
        lemma_consolidate_entries(chunk, n - 1, k);
    } else {
        lemma_candidate_count_len(chunk, n - 1);
    }
}

/// The entry count of a prefix equals its candidate count.
proof fn lemma_candidate_count_len(chunk: Seq<u8>, n: int)
    ensures
        consolidate_spec(chunk, n).len() == candidate_count(chunk, n),
        candidate_count(chunk, n) >= 0,
    decreases n,
{
    if n > 0 {
        lemma_candidate_count_len(chunk, n - 1);
    }
}

/// Law: extraction, too, processes a block exactly when it passes the
/// two-byte filter: each candidate contributes exactly one entry, in
/// offset order, with its object id and its decoded rows.
pub proof fn lemma_extract_entries(chunk: Seq<u8>, n: int, k: int)
    requires
        0 <= k < n,
        8192 * n <= chunk.len(),
    ensures
        extract_spec(chunk, n).len() == candidate_count(chunk, n),
        is_candidate(chunk, k) ==> candidate_count(chunk, k) < candidate_count(chunk, n)
            && extract_spec(chunk, n)[candidate_count(chunk, k)] == ((block_objd(
            block_at(chunk, k),
        ) as u32), extract_rows(block_at(chunk, k))),
    decreases n,
{
    lemma_extract_count_len(chunk, n);
    if k < n - 1 {
        lemma_extract_entries(chunk, n - 1, k);
        lemma_extract_count_len(chunk, n - 1);
        lemma_candidate_count_len(chunk, k);
        if is_candidate(chunk, k) {
            let left = extract_spec(chunk, n - 1);
            let tail: Seq<(u32, Seq<Seq<char>>)> = if is_candidate(chunk, n - 1) {
                seq![((block_objd(block_at(chunk, n - 1)) as u32), extract_rows(block_at(chunk, n - 1)))]
            } else {
                Seq::empty()
            };
            assert(extract_spec(chunk, n) == left + tail);
            assert(candidate_count(chunk, k) < left.len());
            assert((left + tail)[candidate_count(chunk, k)] == left[candidate_count(chunk, k)]);
        }
    } else {
        lemma_extract_count_len(chunk, n - 1);
        if is_candidate(chunk, k) {
            let entry = ((block_objd(block_at(chunk, k)) as u32), extract_rows(block_at(chunk, k)));
            assert(extract_spec(chunk, n) == extract_spec(chunk, n - 1) + seq![entry]);
            assert(extract_spec(chunk, n)[candidate_count(chunk, k)] == entry);
        }
    }
}

/// The extraction entry count of a prefix equals its candidate count.
proof fn lemma_extract_count_len(chunk: Seq<u8>, n: int)
    ensures
        extract_spec(chunk, n).len() == candidate_count(chunk, n),
        candidate_count(chunk, n) >= 0,
    decreases n,
{
    if n > 0 {
        lemma_extract_count_len(chunk, n - 1);
    }
}

/// The rendered value of one column payload.
pub open spec fn col_value(b: Seq<u8>, from: int, to: int) -> Seq<char> {
    crate::decoder::guess_spec(b.subrange(from, to)).1
}

/// The text of `k` columns read from `pos` on: each column is a length
/// byte, then its payload — a long form when the length byte is 254, a
/// bare null marker when it is 255 — and contributes a pipe and its
/// rendered value. Nothing when a read would pass the block's end; the
/// block is then abandoned.
pub open spec fn cols_rec(b: Seq<u8>, pos: int, k: int) -> Option<Seq<char>>
    decreases k,
{
    if k <= 0 {
        Some(Seq::empty())
    } else if pos >= 8192 {
        None
    } else {
        let l = b[pos] as int;
        if l == 255 {
            match cols_rec(b, pos + 1, k - 1) {
                None => None,
                Some(rest) => Some(seq!['|'] + "NULL"@ + rest),
            }
        } else if l == 254 {
            if pos + 3 > 8192 {
                None
            } else {
                let l2 = u16_at(b, pos + 1);
                if pos + 3 + l2 > 8192 {
                    None
                } else {
                    match cols_rec(b, pos + 3 + l2, k - 1) {
                        None => None,
                        Some(rest) => Some(seq!['|'] + col_value(b, pos + 3, pos + 3 + l2) + rest),
                    }
                }
            }
        } else {
            if pos + 1 + l > 8192 {
                None
            } else {
                match cols_rec(b, pos + 1 + l, k - 1) {
                    None => None,
                    Some(rest) => Some(seq!['|'] + col_value(b, pos + 1, pos + 1 + l) + rest),
                }
            }
        }
    }
}

/// The row lines emitted from row `i` on. Each row pointer is adjusted by
/// `shift`; a pointer outside `(low, 8184]` skips its row. A live row
/// (header byte 44) contributes one line when its column text is longer
/// than a bare pipe; a deleted row (header byte 60) and any other header
/// are skipped. A directory or column read past the block's end abandons
/// the block, keeping the rows emitted so far.
pub open spec fn rows_rec(b: Seq<u8>, dir: int, i: int, nrow: int, shift: int, low: int) -> Seq<
    Seq<char>,
>
    decreases nrow - i,
{
    if i >= nrow {
        Seq::empty()
    } else {
        let po = dir + 2 * i;
        if po < 0 || po + 2 > 8192 {
            Seq::empty()
        } else {
            let adj = i16_at(b, po) + shift;
            if !(adj > low && 0 <= adj && adj <= 8184) {
                rows_rec(b, dir, i + 1, nrow, shift, low)
            } else if b[adj] == 44 {
                match cols_rec(b, adj + 3, b[adj + 2] as int) {
                    None => Seq::empty(),
                    Some(s) => (if s.len() > 1 {
                        seq![s]
                    } else {
                        Seq::empty()
                    }) + rows_rec(b, dir, i + 1, nrow, shift, low),
                }
            } else {
                rows_rec(b, dir, i + 1, nrow, shift, low)
            }
        }
    }
}

/// The row lines one 8192-byte candidate block yields. The transaction
/// header's slot count fixes where the two mode words sit; the mode words
/// select the data-header bias and the row-pointer constant, and the
/// combination with a first word set and a second word clear has no
/// defined constant, so such a block is treated as malformed. A block
/// with no declared rows yields nothing.
pub open spec fn extract_rows(b: Seq<u8>) -> Seq<Seq<char>> {
    let ict = b[36] as int;
    let tx_end = 44 + 24 * ict;
    let f1 = u32_at(b, tx_end);
    let f2 = u32_at(b, tx_end + 4);
    if f1 > 0 && f2 == 0 {
        Seq::empty()
    } else {
        let bias: int = if f1 == 0 && f2 == 0 {
            8
        } else {
            0
        };
        let cmod: int = if f1 == 0 && f2 == 0 {
            100
        } else if f1 == 0 {
            96
        } else {
            92
        };
        let kdbh = tx_end + bias;
        let nrow = i16_at(b, kdbh + 2);
        if nrow <= 0 {
            Seq::empty()
        } else {
            let dir = kdbh + 14 + 4 * as_i8(b[kdbh + 1]);
            rows_rec(b, dir, 0, nrow, cmod + 24 * (ict - 2), 2 * nrow + dir)
        }
    }
}

/// The mathematical contents of a vector of row lines.
pub open spec fn string_views(v: Seq<String>) -> Seq<Seq<char>> {
    v.map_values(|s: String| s@)
}

/// Decode `ncols` columns starting at `start`, or nothing when a read
/// would pass the block's end.
#[verifier::rlimit(100)]
#[verifier::loop_isolation(false)]
fn decode_columns(b: &Vec<u8>, start: usize, ncols: u8) -> (r: Option<String>)
    requires
        b@.len() == 8192,
        start <= 8192,
    ensures
        r matches Some(s) ==> cols_rec(b@, start as int, ncols as int) == Some(s@),
        r is None ==> cols_rec(b@, start as int, ncols as int) is None,
        r matches Some(s) ==> (ncols >= 1 ==> s@.len() >= 2),
{
    let mut s = String::new();
    let mut pos = start;
    let mut j: u8 = 0;
    while j < ncols
        invariant
            start <= pos <= 8192,
            j <= ncols,
            j >= 1 ==> s@.len() >= 2,
            match cols_rec(b@, pos as int, ncols - j) {
                None => cols_rec(b@, start as int, ncols as int) is None,
                Some(rest) => cols_rec(b@, start as int, ncols as int) == Some(s@ + rest),
            },
        decreases ncols - j,
    {
        if pos >= 8192 {
            return None;
        }
        let l = b[pos];
        if l == 255 {
            s.append("|NULL");
            pos = pos + 1;
            proof {
                reveal_strlit("|NULL");
                reveal_strlit("NULL");
                assert("|NULL"@ =~= seq!['|'] + "NULL"@);
            }
        } else if l == 254 {
            if pos + 3 > 8192 {
                return None;
            }
            let l2 = b[pos + 1] as usize + 256 * (b[pos + 2] as usize);
            if pos + 3 + l2 > 8192 {
                return None;
            }
            let payload = subvec(b, pos + 3, pos + 3 + l2);
            let v = crate::decoder::guess_type(payload);
            s.append("|");
            s.append(v.value.as_str());
            pos = pos + 3 + l2;
            proof {
                reveal_strlit("|");
            }
        } else {
            if pos + 1 + l as usize > 8192 {
                return None;
            }
            let payload = subvec(b, pos + 1, pos + 1 + l as usize);
            let v = crate::decoder::guess_type(payload);
            s.append("|");
            s.append(v.value.as_str());
            pos = pos + 1 + l as usize;
            proof {
                reveal_strlit("|");
            }
        }
        j = j + 1;
    }
    Some(s)
}

/// Walk one candidate block's structure and return its object id and the
/// decoded row lines.
#[verifier::rlimit(60)]
#[verifier::loop_isolation(false)]
pub fn extract_block(block_data: &Vec<u8>) -> (r: (u32, Vec<String>))
    requires
        block_data@.len() == 8192,
    ensures
        r.0 as int == block_objd(block_data@),
        string_views(r.1@) == extract_rows(block_data@),
{
    let objd = read_u32(block_data, 24);
    let ict = block_data[36] as usize;
    let tx_end = 44 + 24 * ict;
    let f1 = read_u32(block_data, tx_end);
    let f2 = read_u32(block_data, tx_end + 4);
    let mut rows: Vec<String> = Vec::new();
    if f1 > 0 && f2 == 0 {
        return (objd, rows);
    }
    let bias: usize = if f1 == 0 && f2 == 0 {
        8
    } else {
        0
    };
    let cmod: i64 = if f1 == 0 && f2 == 0 {
        100
    } else if f1 == 0 {
        96
    } else {
        92
    };
    let kdbh = tx_end + bias;
    let nrow = read_i16(block_data, kdbh + 2);
    if nrow <= 0 {
        return (objd, rows);
    }
    let ntab2: i64 = if block_data[kdbh + 1] < 128 {
        block_data[kdbh + 1] as i64
    } else {
        block_data[kdbh + 1] as i64 - 256
    };
    let dir: i64 = kdbh as i64 + 14 + 4 * ntab2;
    let shift: i64 = cmod + 24 * (ict as i64 - 2);
    let low: i64 = 2 * nrow + dir;
    let ghost b = block_data@;
    proof {
        assert(extract_rows(b) == rows_rec(
            b,
            dir as int,
            0,
            nrow as int,
            shift as int,
            low as int,
        ));
    }
    let mut i: i64 = 0;
    while i < nrow
        invariant
            0 <= i <= nrow,
            string_views(rows@) + rows_rec(b, dir as int, i as int, nrow as int, shift as int, low as int)
                == extract_rows(b),
        decreases nrow - i,
    {
        let ghost rest_here = rows_rec(b, dir as int, i as int, nrow as int, shift as int, low as int);
        let ghost rest_next = rows_rec(b, dir as int, i + 1, nrow as int, shift as int, low as int);
        let po = dir + 2 * i;
        if po < 0 || po + 2 > 8192 {
            proof {
                assert(rest_here =~= Seq::<Seq<char>>::empty());
                assert(string_views(rows@) =~= extract_rows(b));
            }
            return (objd, rows);
        }
        let raw = read_i16(block_data, po as usize);
        let adj = raw + shift;
        if adj > low && 0 <= adj && adj <= 8184 {
            let hdr = block_data[adj as usize];
            if hdr == 44 {
                let ncols = block_data[adj as usize + 2];
                match decode_columns(block_data, adj as usize + 3, ncols) {
                    None => {
                        proof {
                            assert(rest_here =~= Seq::<Seq<char>>::empty());
                            assert(string_views(rows@) =~= extract_rows(b));
                        }
                        return (objd, rows);
                    },
                    Some(line) => {
                        if line.as_str().unicode_len() > 1 {
                            let ghost rows_prev = rows@;
                            proof {
                                assert(rest_here =~= seq![line@] + rest_next);
                            }
                            rows.push(line);
                            proof {
                                assert(string_views(rows@) =~= string_views(rows_prev).push(
                                    rows@.last()@,
                                ));
                                assert(string_views(rows@) + rest_next =~= extract_rows(b));
                            }
                        } else {
                            proof {
                                assert(rest_here =~= rest_next);
                            }
                        }
                    },
                }
            } else {
                proof {
                    assert(rest_here =~= rest_next);
                }
            }
        } else {
            proof {
                assert(rest_here =~= rest_next);
            }
        }
        i = i + 1;
    }
    (objd, rows)
}

/// What extraction yields from a chunk's first `n` blocks: for each
/// candidate, in offset order, its object id and its decoded row lines.
pub open spec fn extract_spec(chunk: Seq<u8>, n: int) -> Seq<(u32, Seq<Seq<char>>)>
    decreases n,
{
    if n <= 0 {
        Seq::empty()
    } else {
        extract_spec(chunk, n - 1) + (if is_candidate(chunk, n - 1) {
            seq![((block_objd(block_at(chunk, n - 1)) as u32), extract_rows(block_at(chunk, n - 1)))]
        } else {
            Seq::empty()
        })
    }
}

/// The mathematical contents of a vector of extraction entries.
pub open spec fn extract_view(v: Seq<(u32, Vec<String>)>) -> Seq<(u32, Seq<Seq<char>>)> {
    v.map_values(|p: (u32, Vec<String>)| (p.0, string_views(p.1@)))
}

/// Scan a chunk and decode, for every candidate block in offset order,
/// its object id and its row lines.
#[verifier::loop_isolation(false)]
pub fn extract_chunk(chunk_bytes: &Vec<u8>) -> (r: Vec<(u32, Vec<String>)>)
    ensures
        extract_view(r@) == extract_spec(chunk_bytes@, num_blocks(chunk_bytes@)),
{
    let n = chunk_bytes.len() / BLOCK_SIZE;
    let mut out: Vec<(u32, Vec<String>)> = Vec::new();
    let mut position: usize = 0;
    while position < n
        invariant
            n == num_blocks(chunk_bytes@),
            position <= n,
            extract_view(out@) == extract_spec(chunk_bytes@, position as int),
        decreases n - position,
    {
        let base = position * BLOCK_SIZE;
        if chunk_bytes[base] == 6 && chunk_bytes[base + 20] == 1 {
            let block = subvec(chunk_bytes, base, base + BLOCK_SIZE);
            let (objd, lines) = extract_block(&block);
            out.push((objd, lines));
        }
        position = position + 1;
        proof {
            assert(extract_view(out@) =~= extract_spec(chunk_bytes@, position as int));
        }
    }
    out
}

} // verus!
