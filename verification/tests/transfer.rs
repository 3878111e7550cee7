use p2pfilesend::agents::dedup_agents;
use p2pfilesend::chunks::ChunkAddress;
use p2pfilesend::chunks::FileChunk;
use p2pfilesend::errors::FileError;
use p2pfilesend::errors::IntegrityError;
use p2pfilesend::integrity::digest_hex;
use p2pfilesend::integrity::verify;
use p2pfilesend::protocol::Node;
use p2pfilesend::protocol::RemoteResponse;
use p2pfilesend::records::AgentListWrapper;
use p2pfilesend::records::FileInput;
use p2pfilesend::records::FileMetadataEntry;
use p2pfilesend::records::FileMetadataOption;
use p2pfilesend::records::FileMetadataOutput;
use p2pfilesend::records::FileSource;
use p2pfilesend::timestamp::Timestamp;

fn bytes_input(receiver: &str, bytes: Vec<u8>) -> FileInput {
    FileInput {
        receiver: receiver.to_string(),
        file_name: "file.bin".to_string(),
        file_size: bytes.len(),
        file_type: "application/octet-stream".to_string(),
        source: FileSource::Bytes(bytes),
    }
}

fn uploaded_input(receiver: &str, chunks: Vec<ChunkAddress>, declared: String) -> FileInput {
    FileInput {
        receiver: receiver.to_string(),
        file_name: "file.bin".to_string(),
        file_size: 0,
        file_type: "application/octet-stream".to_string(),
        source: FileSource::Uploaded { chunks, expected_hash_hex: declared },
    }
}

fn make_entry(author: &str, secs: i64, chunks: Vec<ChunkAddress>) -> FileMetadataEntry {
    FileMetadataEntry {
        author: author.to_string(),
        receiver: "bob".to_string(),
        file_name: "file.bin".to_string(),
        file_size: 0,
        file_type: "application/octet-stream".to_string(),
        time_sent: Timestamp::new(secs, 0),
        time_received: None,
        chunks,
    }
}

#[test]
fn five_byte_file_transfer() {
    let mut node = Node::new("alice".to_string(), 2, 100, 100);
    let rec = node.send_file(bytes_input("bob", vec![1, 2, 3, 4, 5]), Timestamp::new(100, 0))
        .unwrap();
    assert_eq!(rec.author, "alice");
    assert_eq!(rec.receiver, "bob");
    assert_eq!(rec.chunks.len(), 3);
    assert!(rec.time_received.is_none());

    let bytes = node.get_bytes_from_chunks(rec.chunks.clone()).unwrap();
    assert_eq!(bytes, vec![1, 2, 3, 4, 5]);
    assert_eq!(verify(&bytes, digest_hex(&bytes).as_str()), Ok(()));

    let t2 = Timestamp::new(101, 0);
    let reply = node.receive_file(rec, t2);
    let stored = reply.0.unwrap();
    assert_eq!(stored.time_received, Some(t2));

    let out = node.get_file_from_metadata(stored).unwrap();
    assert_eq!(out.0, vec![1, 2, 3, 4, 5]);
}

#[test]
fn handshake_mirrors_receiver_record() {
    let mut alice = Node::new("alice".to_string(), 2, 100, 100);
    let mut bob = Node::new("bob".to_string(), 2, 100, 100);
    let t1 = Timestamp::new(5, 0);
    let t2 = Timestamp::new(6, 0);
    let res = alice.send_file_to(&mut bob, bytes_input("bob", vec![9, 8, 7]), t1, t2).unwrap();
    let rec = res.0.unwrap();
    assert_eq!(rec.author, "alice");
    assert_eq!(rec.time_sent, t1);
    assert_eq!(rec.time_received, Some(t2));

    let alice_list = alice.get_all_file_metadata();
    let bob_list = bob.get_all_file_metadata();
    assert_eq!(alice_list.0.len(), 1);
    assert_eq!(bob_list.0.len(), 1);
    assert_eq!(alice_list.0[0].author, bob_list.0[0].author);
    assert_eq!(alice_list.0[0].time_received, bob_list.0[0].time_received);
}

#[test]
fn handshake_reports_absence_when_receiver_full() {
    let mut alice = Node::new("alice".to_string(), 2, 100, 100);
    let mut bob = Node::new("bob".to_string(), 2, 100, 0);
    let res = alice
        .send_file_to(
            &mut bob,
            bytes_input("bob", vec![1, 2]),
            Timestamp::new(5, 0),
            Timestamp::new(6, 0),
        )
        .unwrap();
    assert!(res.0.is_none());
    assert!(alice.get_all_file_metadata().0.is_empty());
    assert!(bob.get_all_file_metadata().0.is_empty());
}

#[test]
fn handshake_fails_when_sender_store_full() {
    let mut alice = Node::new("alice".to_string(), 2, 100, 0);
    let mut bob = Node::new("bob".to_string(), 2, 100, 100);
    let res = alice.send_file_to(
        &mut bob,
        bytes_input("bob", vec![1, 2]),
        Timestamp::new(5, 0),
        Timestamp::new(6, 0),
    );
    assert!(matches!(res, Err(FileError::Storage)));
    assert!(alice.get_all_file_metadata().0.is_empty());
    assert_eq!(bob.get_all_file_metadata().0.len(), 1);
}

#[test]
fn receive_swallows_persistence_failure() {
    let mut node = Node::new("bob".to_string(), 2, 10, 0);
    let rec = FileMetadataOutput {
        author: "alice".to_string(),
        receiver: "bob".to_string(),
        file_name: "file.bin".to_string(),
        file_size: 0,
        file_type: "application/octet-stream".to_string(),
        time_sent: Timestamp::new(1, 0),
        time_received: None,
        chunks: Vec::new(),
    };
    let reply = node.receive_file(rec, Timestamp::new(2, 0));
    assert!(reply.0.is_none());
    assert!(node.get_all_file_metadata().0.is_empty());
}

#[test]
fn confirm_send_unauthorized_fails() {
    let mut alice = Node::new("alice".to_string(), 2, 10, 10);
    let res = alice.confirm_send(RemoteResponse::Unauthorized);
    assert!(matches!(res, Err(FileError::Unauthorized)));
    assert!(alice.get_all_file_metadata().0.is_empty());
}

#[test]
fn confirm_send_absent_record_persists_nothing() {
    let mut alice = Node::new("alice".to_string(), 2, 10, 10);
    let res = alice.confirm_send(RemoteResponse::Answered(FileMetadataOption(None))).unwrap();
    assert!(res.0.is_none());
    assert!(alice.get_all_file_metadata().0.is_empty());
}

#[test]
fn uploaded_chunks_verified_before_send() {
    let mut node = Node::new("alice".to_string(), 2, 10, 10);
    let a1 = node.upload_chunk(FileChunk(vec![1, 2])).unwrap();
    let a2 = node.upload_chunk(FileChunk(vec![3, 4])).unwrap();
    let declared = digest_hex(&vec![1, 2, 3, 4]);
    let input = uploaded_input("bob", vec![a1.clone(), a2.clone()], declared);
    let rec = node.send_file(input, Timestamp::new(1, 0)).unwrap();
    assert_eq!(rec.chunks, vec![a1, a2]);
    assert!(rec.time_received.is_none());
}

#[test]
fn uploaded_chunks_digest_mismatch_blocks_send() {
    let mut node = Node::new("alice".to_string(), 2, 10, 10);
    let a1 = node.upload_chunk(FileChunk(vec![1, 2])).unwrap();
    let declared = digest_hex(&vec![9, 9]);
    let res = node.send_file(uploaded_input("bob", vec![a1], declared), Timestamp::new(1, 0));
    assert!(matches!(res, Err(FileError::Integrity(IntegrityError::Mismatch))));
    assert!(node.get_all_file_metadata().0.is_empty());
}

#[test]
fn uploaded_chunks_bad_digest_encoding_blocks_send() {
    let mut node = Node::new("alice".to_string(), 2, 10, 10);
    let a1 = node.upload_chunk(FileChunk(vec![1, 2])).unwrap();
    let res = node.send_file(
        uploaded_input("bob", vec![a1], "not-hex".to_string()),
        Timestamp::new(1, 0),
    );
    assert!(matches!(res, Err(FileError::Integrity(IntegrityError::BadEncoding))));
}

#[test]
fn uploaded_missing_chunk_is_not_found() {
    let mut node = Node::new("alice".to_string(), 2, 10, 10);
    let bogus = ChunkAddress(vec![0u8; 32]);
    let declared = digest_hex(&Vec::new());
    let res = node.send_file(uploaded_input("bob", vec![bogus], declared), Timestamp::new(1, 0));
    assert!(matches!(res, Err(FileError::NotFound)));
}

#[test]
fn send_fails_when_chunk_store_full() {
    let mut node = Node::new("alice".to_string(), 2, 1, 10);
    let res = node.send_file(bytes_input("bob", vec![1, 2, 3, 4]), Timestamp::new(1, 0));
    assert!(matches!(res, Err(FileError::Storage)));
}

#[test]
fn corrupt_entry_is_skipped_alone() {
    let mut node = Node::new("n".to_string(), 2, 10, 10);
    node.record_store.create(make_entry("alice", 1, Vec::new())).unwrap();
    node.record_store.create_corrupt().unwrap();
    node.record_store.create(make_entry("carol", 2, Vec::new())).unwrap();
    let list = node.get_all_file_metadata();
    assert_eq!(list.0.len(), 2);
    assert_eq!(list.0[0].author, "alice");
    assert_eq!(list.0[1].author, "carol");
}

#[test]
fn by_agent_deduplicates_and_partitions() {
    let mut node = Node::new("n".to_string(), 2, 10, 10);
    node.record_store.create(make_entry("alice", 1, Vec::new())).unwrap();
    node.record_store.create(make_entry("carol", 2, Vec::new())).unwrap();
    let out = node.get_all_file_metadata_from_addresses(AgentListWrapper(vec![
        "alice".to_string(),
        "bob".to_string(),
        "alice".to_string(),
    ]));
    assert_eq!(out.0.len(), 2);
    assert_eq!(out.0[0].author, "alice");
    assert_eq!(out.0[0].metadata.len(), 1);
    assert_eq!(out.0[0].metadata[0].author, "alice");
    assert_eq!(out.0[1].author, "bob");
    assert!(out.0[1].metadata.is_empty());
}

#[test]
fn dedup_keeps_first_occurrences() {
    let d = dedup_agents(&vec![
        "a".to_string(),
        "a".to_string(),
        "b".to_string(),
        "a".to_string(),
    ]);
    assert_eq!(d, vec!["a".to_string(), "b".to_string()]);
}

#[test]
fn get_all_files_skips_unreassemblable_record() {
    let mut node = Node::new("alice".to_string(), 2, 10, 10);
    let rec = node.send_file(bytes_input("bob", vec![1, 2, 3]), Timestamp::new(1, 0)).unwrap();
    assert!(node.receive_file(rec, Timestamp::new(2, 0)).0.is_some());
    let bogus = ChunkAddress(vec![0u8; 32]);
    node.record_store.create(make_entry("carol", 3, vec![bogus])).unwrap();
    let files = node.get_all_files();
    assert_eq!(files.0.len(), 1);
    assert_eq!(files.0[0].0, vec![1, 2, 3]);
}

#[test]
fn entry_output_conversion_preserves_fields() {
    let entry = make_entry("alice", 7, vec![ChunkAddress(vec![1u8, 2])]);
    let out = FileMetadataOutput::from_entry(entry.duplicate());
    assert_eq!(out.author, entry.author);
    assert_eq!(out.receiver, entry.receiver);
    assert_eq!(out.file_name, entry.file_name);
    assert_eq!(out.file_size, entry.file_size);
    assert_eq!(out.file_type, entry.file_type);
    assert_eq!(out.time_sent, entry.time_sent);
    assert_eq!(out.time_received, entry.time_received);
    assert_eq!(out.chunks, entry.chunks);
    let back = FileMetadataEntry::from_output(out);
    assert_eq!(back.author, entry.author);
    assert_eq!(back.chunks, entry.chunks);
}

#[test]
fn mark_received_sets_only_receipt_stamp() {
    let mut entry = make_entry("alice", 7, Vec::new());
    assert!(entry.time_received.is_none());
    entry.mark_received(Timestamp::new(9, 1));
    assert_eq!(entry.time_received, Some(Timestamp::new(9, 1)));
    assert_eq!(entry.author, "alice");
    assert_eq!(entry.time_sent, Timestamp::new(7, 0));
}

#[test]
fn upload_and_get_file_chunk_round_trip() {
    let mut node = Node::new("alice".to_string(), 2, 10, 10);
    let addr = node.upload_chunk(FileChunk(vec![5, 6])).unwrap();
    let chunk = node.get_file_chunk(&addr).unwrap();
    assert_eq!(chunk.0, vec![5, 6]);
}

#[test]
fn timestamp_order_is_lexicographic() {
    assert!(Timestamp::new(1, 5).le(&Timestamp::new(1, 5)));
    assert!(Timestamp::new(1, 5).le(&Timestamp::new(1, 6)));
    assert!(Timestamp::new(1, 9).le(&Timestamp::new(2, 0)));
    assert!(!Timestamp::new(2, 0).le(&Timestamp::new(1, 9)));
}
