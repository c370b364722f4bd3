use rico3::block::{consolidate_chunk, extract_block, extract_chunk};

fn candidate_block(objd: u32) -> Vec<u8> {
    let mut b = vec![0u8; 8192];
    b[0] = 6;
    b[20] = 1;
    let id = objd.to_le_bytes();
    b[24] = id[0];
    b[25] = id[1];
    b[26] = id[2];
    b[27] = id[3];
    b
}

// A candidate block with two transaction slots, both mode words zero, one
// declared table and one live row of two columns ("AB" and the zero
// number).
fn block_with_row(objd: u32) -> Vec<u8> {
    let mut b = candidate_block(objd);
    b[36] = 2; // transaction slot count; slots end at offset 92
    // mode words at 92..100 stay zero: bias 8, row-pointer constant 100
    b[101] = 1; // declared tables, also the row-directory base byte
    b[102] = 1; // one declared row
    // row directory at 100 + 14 + 4 = 118; raw pointer 100 adjusts to 200
    b[118] = 100;
    b[200] = 44; // live row
    b[202] = 2; // two columns
    b[203] = 2; // first column: two bytes of text
    b[204] = 65;
    b[205] = 66;
    b[206] = 1; // second column: the zero number
    b[207] = 0x80;
    b
}

#[test]
fn consolidate_keeps_candidate_block() {
    let block = candidate_block(42);
    let out = consolidate_chunk(&block);
    assert_eq!(out.len(), 1);
    assert_eq!(out[0].0, 42);
    assert_eq!(out[0].1, block);
    assert_eq!(out[0].1.len(), 8192);
}

#[test]
fn consolidate_skips_non_candidate() {
    let block = vec![0u8; 8192];
    let out = consolidate_chunk(&block);
    assert!(out.is_empty());
}

#[test]
fn consolidate_skips_wrong_subtype() {
    let mut block = vec![0u8; 8192];
    block[0] = 6;
    let out = consolidate_chunk(&block);
    assert!(out.is_empty());
}

#[test]
fn consolidate_two_blocks_same_object() {
    let mut chunk = candidate_block(7);
    chunk.extend_from_slice(&vec![0u8; 8192]);
    chunk.extend_from_slice(&candidate_block(7));
    let out = consolidate_chunk(&chunk);
    assert_eq!(out.len(), 2);
    assert_eq!(out[0].0, 7);
    assert_eq!(out[1].0, 7);
    assert_eq!(out[0].1.len() + out[1].1.len(), 16384);
}

#[test]
fn consolidate_ignores_trailing_partial_block() {
    let mut chunk = candidate_block(9);
    chunk.extend_from_slice(&vec![6u8; 100]);
    let out = consolidate_chunk(&chunk);
    assert_eq!(out.len(), 1);
}

#[test]
fn extract_block_decodes_live_row() {
    let block = block_with_row(7);
    let (objd, rows) = extract_block(&block);
    assert_eq!(objd, 7);
    assert_eq!(rows, vec![String::from("|AB|0")]);
}

#[test]
fn extract_block_skips_deleted_row() {
    let mut block = block_with_row(7);
    block[200] = 60;
    let (objd, rows) = extract_block(&block);
    assert_eq!(objd, 7);
    assert!(rows.is_empty());
}

#[test]
fn extract_block_skips_unknown_row_header() {
    let mut block = block_with_row(7);
    block[200] = 45;
    let (_, rows) = extract_block(&block);
    assert!(rows.is_empty());
}

#[test]
fn extract_block_rejects_undefined_mode_words() {
    let mut block = block_with_row(7);
    block[92] = 1; // first mode word set, second clear: malformed
    let (objd, rows) = extract_block(&block);
    assert_eq!(objd, 7);
    assert!(rows.is_empty());
}

#[test]
fn extract_block_null_column_marker() {
    let mut block = block_with_row(7);
    block[202] = 1;
    block[203] = 255;
    let (_, rows) = extract_block(&block);
    assert_eq!(rows, vec![String::from("|NULL")]);
}

#[test]
fn extract_block_out_of_window_pointer_is_skipped() {
    let mut block = block_with_row(7);
    block[118] = 0; // adjusted pointer 100 is below the directory end
    let (_, rows) = extract_block(&block);
    assert!(rows.is_empty());
}

#[test]
fn extract_chunk_decodes_candidates_only() {
    let mut chunk = block_with_row(5);
    chunk.extend_from_slice(&vec![0u8; 8192]);
    chunk.extend_from_slice(&block_with_row(6));
    let out = extract_chunk(&chunk);
    assert_eq!(out.len(), 2);
    assert_eq!(out[0].0, 5);
    assert_eq!(out[1].0, 6);
    assert_eq!(out[0].1, vec![String::from("|AB|0")]);
}
