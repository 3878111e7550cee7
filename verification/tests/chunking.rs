use p2pfilesend::chunks::ChunkAddress;
use p2pfilesend::chunks::ChunkStore;
use p2pfilesend::chunks::FileChunk;
use p2pfilesend::chunks::split;
use p2pfilesend::errors::FileError;
use p2pfilesend::hashing::hex_encode;
use p2pfilesend::integrity::digest_hex;

fn chunk_bytes(chunks: &[FileChunk]) -> Vec<Vec<u8>> {
    chunks.iter().map(|c| c.0.clone()).collect()
}

#[test]
fn split_five_bytes_by_two() {
    let pieces = split(&vec![1u8, 2, 3, 4, 5], 2);
    assert_eq!(chunk_bytes(&pieces), vec![vec![1u8, 2], vec![3, 4], vec![5]]);
}

#[test]
fn split_exact_multiple() {
    let pieces = split(&vec![1u8, 2, 3, 4], 2);
    assert_eq!(chunk_bytes(&pieces), vec![vec![1u8, 2], vec![3, 4]]);
}

#[test]
fn split_empty_buffer() {
    let pieces = split(&Vec::new(), 4);
    assert!(pieces.is_empty());
}

#[test]
fn split_chunk_larger_than_buffer() {
    let pieces = split(&vec![7u8, 8], 100);
    assert_eq!(chunk_bytes(&pieces), vec![vec![7u8, 8]]);
}

#[test]
fn store_addresses_by_content_digest() {
    let mut store = ChunkStore::new(10);
    let addr = store.store(FileChunk(vec![1u8, 2])).unwrap();
    assert_eq!(hex_encode(addr.0.as_slice()), digest_hex(&vec![1u8, 2]));
    let fetched = store.fetch(&addr).unwrap();
    assert_eq!(fetched.0, vec![1u8, 2]);
}

#[test]
fn store_is_idempotent_for_equal_bytes() {
    let mut store = ChunkStore::new(10);
    let a1 = store.store(FileChunk(vec![1u8, 2])).unwrap();
    let a2 = store.store(FileChunk(vec![1u8, 2])).unwrap();
    assert_eq!(a1.0, a2.0);
    assert_eq!(store.addrs.len(), 1);
}

#[test]
fn store_fails_when_full() {
    let mut store = ChunkStore::new(1);
    store.store(FileChunk(vec![1u8])).unwrap();
    assert_eq!(store.store(FileChunk(vec![2u8])), Err(FileError::Storage));
}

#[test]
fn fetch_absent_address_is_not_found() {
    let store = ChunkStore::new(4);
    let bogus = ChunkAddress(vec![0u8; 32]);
    assert_eq!(store.fetch(&bogus), Err(FileError::NotFound));
}

#[test]
fn reassemble_follows_address_order() {
    let mut store = ChunkStore::new(10);
    let a1 = store.store(FileChunk(vec![1u8, 2])).unwrap();
    let a2 = store.store(FileChunk(vec![3u8, 4])).unwrap();
    let forward = store.reassemble(&vec![a1.duplicate(), a2.duplicate()]).unwrap();
    let backward = store.reassemble(&vec![a2, a1]).unwrap();
    assert_eq!(forward, vec![1u8, 2, 3, 4]);
    assert_eq!(backward, vec![3u8, 4, 1, 2]);
    assert_ne!(forward, backward);
}

#[test]
fn reassemble_empty_list_is_empty_buffer() {
    let store = ChunkStore::new(4);
    assert_eq!(store.reassemble(&Vec::new()), Ok(Vec::new()));
}

#[test]
fn reassemble_aborts_on_missing_chunk() {
    let mut store = ChunkStore::new(10);
    let a1 = store.store(FileChunk(vec![1u8])).unwrap();
    let bogus = ChunkAddress(vec![0u8; 32]);
    assert_eq!(store.reassemble(&vec![a1, bogus]), Err(FileError::NotFound));
}

#[test]
fn store_file_round_trip() {
    let mut store = ChunkStore::new(10);
    let bytes = vec![1u8, 2, 3, 4, 5];
    let addrs = store.store_file(&bytes, 2).unwrap();
    assert_eq!(addrs.len(), 3);
    assert_eq!(store.reassemble(&addrs), Ok(bytes));
}

#[test]
fn store_file_empty_yields_no_addresses() {
    let mut store = ChunkStore::new(10);
    let addrs = store.store_file(&Vec::new(), 3).unwrap();
    assert!(addrs.is_empty());
}
