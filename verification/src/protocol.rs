use vstd::prelude::*;
use crate::chunks::ChunkAddress;
use crate::chunks::ChunkStore;
use crate::chunks::FileChunk;
use crate::chunks::addr_views;
use crate::chunks::chunks_of;
use crate::chunks::pieces_fit;
use crate::errors::FileError;
use crate::errors::IntegrityError;
use crate::hashing::sha256_of;
use crate::integrity::verify;
use crate::integrity::verify_spec;
use crate::agents::author_filter;
use crate::agents::dedup_agents;
use crate::agents::dedup_spec;
use crate::records::AgentListWrapper;
use crate::records::FileInput;
use crate::records::FileMetadataByAgent;
use crate::records::FileMetadataByAgentListWrapper;
use crate::records::FileMetadataList;
use crate::records::FileOutput;
use crate::records::FileOutputList;
use crate::records::record_views;
use crate::records::string_views;
use crate::records::FileMetadataEntry;
use crate::records::FileMetadataOption;
use crate::records::FileMetadataOutput;
use crate::records::FileSource;
use crate::records::FileSourceView;
use crate::records::RecordView;
use crate::store::RecordStore;
use crate::store::StoredEntry;
use crate::store::decoded_records;
use crate::timestamp::Timestamp;
use crate::timestamp::ts_le;

verus! {

/// The peer's reply to the remote receive call, as the transport hands it
/// back to the sender.
#[derive(Debug)]
pub enum RemoteResponse {
    /// The call ran; the payload is the receiver's receipt report.
    Answered(FileMetadataOption),
    /// The peer did not authorize the call.
    Unauthorized,
}

/// One participant of the transfer protocol: its identity, its configured
/// chunk size, and its two local stores.
pub struct Node {
    pub agent_id: String,
    pub chunk_size: usize,
    pub chunk_store: ChunkStore,
    pub record_store: RecordStore,
}

impl Node {
    /// Well-formed: a positive chunk size and well-formed stores.
    pub open spec fn wf(self) -> bool {
        &&& self.chunk_size >= 1
        &&& self.chunk_store.wf()
        &&& self.record_store.wf()
    }

    /// A fresh participant with empty stores.
    pub fn new(agent_id: String, chunk_size: usize, chunk_capacity: usize, record_capacity: usize) -> (r: Node)
        requires
            chunk_size >= 1,
        ensures
            r.wf(),
            r.agent_id@ == agent_id@,
            r.chunk_size == chunk_size,
            r.chunk_store.capacity == chunk_capacity,
            r.record_store.capacity == record_capacity,
            r.chunk_store.addr_seq().len() == 0,
            forall|a: Seq<u8>| !r.chunk_store.has_addr(a),
            r.record_store.entries@.len() == 0,
            r.record_store.records() == Seq::<RecordView>::empty(),
    {
        Node {
            agent_id,
            chunk_size,
            chunk_store: ChunkStore::new(chunk_capacity),
            record_store: RecordStore::new(record_capacity),
        }
    }

    /// Stores one chunk under its content address and returns that address.
    /// Succeeds exactly when the chunk already sits under its digest with
    /// the same bytes, or its digest is new and one more entry fits.
    pub fn upload_chunk(&mut self, file_chunk_input: FileChunk) -> (r: Result<
        ChunkAddress,
        FileError,
    >)
        requires
            old(self).wf(),
        ensures
            final(self).wf(),
            final(self).agent_id == old(self).agent_id,
            final(self).chunk_size == old(self).chunk_size,
            final(self).record_store == old(self).record_store,
            r matches Ok(a) ==> a@ == sha256_of(file_chunk_input@) && final(self).chunk_store.has_addr(a@) && final(self).chunk_store.bytes_at(a@)
                == file_chunk_input@,
            r is Err ==> r == Err::<ChunkAddress, FileError>(FileError::Storage) && *final(self)
                == *old(self),
            r is Ok <==> ((old(self).chunk_store.has_addr(sha256_of(file_chunk_input@)) && old(
                self,
            ).chunk_store.bytes_at(sha256_of(file_chunk_input@)) == file_chunk_input@) || (!old(
                self,
            ).chunk_store.has_addr(sha256_of(file_chunk_input@)) && old(
                self,
            ).chunk_store.addrs@.len() < old(self).chunk_store.capacity)),
            forall|b: Seq<u8>| old(self).chunk_store.has_addr(b) ==> final(self).chunk_store.has_addr(b) && final(self).chunk_store.bytes_at(b) == old(self).chunk_store.bytes_at(b),
    {
        self.chunk_store.store(file_chunk_input)
    }

    /// Retrieves the chunk stored under the given address; `NotFound` when
    /// nothing is stored there.
    pub fn get_file_chunk(&self, file_chunk_hash: &ChunkAddress) -> (r: Result<
        FileChunk,
        FileError,
    >)
        requires
            self.wf(),
        ensures
            self.chunk_store.has_addr(file_chunk_hash@) ==> (r matches Ok(c) && c@
                == self.chunk_store.bytes_at(file_chunk_hash@)),
            !self.chunk_store.has_addr(file_chunk_hash@) ==> r == Err::<FileChunk, FileError>(
                FileError::NotFound,
            ),
    {
        self.chunk_store.fetch(file_chunk_hash)
    }

    /// Fetches every address in order and concatenates the chunk bytes; one
    /// absent address aborts the whole operation with `NotFound`.
    pub fn get_bytes_from_chunks(&self, chunks_hashes: Vec<ChunkAddress>) -> (r: Result<
        Vec<u8>,
        FileError,
    >)
        requires
            self.wf(),
        ensures
            self.chunk_store.all_present(addr_views(chunks_hashes@)) ==> (r matches Ok(b) && b@
                == self.chunk_store.reassemble_spec(addr_views(chunks_hashes@))),
            !self.chunk_store.all_present(addr_views(chunks_hashes@)) ==> r == Err::<
                Vec<u8>,
                FileError,
            >(FileError::NotFound),
    {
        self.chunk_store.reassemble(&chunks_hashes)
    }

    /// The sender's half of a transfer: resolves the chunk addresses and
    /// builds the record to push to the receiver.
    ///
    /// Raw bytes are split and stored locally; their addresses, replayed in
    /// order, reassemble to exactly the input bytes. Pre-uploaded addresses
    /// are first reassembled and verified against the declared digest; an
    /// integrity failure blocks the transfer before any remote call.
    ///
    /// The returned record carries this node as author, the supplied
    /// attributes, `now` as the send stamp, and no receipt stamp. Nothing is
    /// persisted in the record store: the sender persists only the record
    /// the receiver confirms (see `confirm_send`).
    pub fn send_file(&mut self, file_input: FileInput, now: Timestamp) -> (r: Result<
        FileMetadataOutput,
        FileError,
    >)
        requires
            old(self).wf(),
        ensures
            final(self).wf(),
            final(self).agent_id == old(self).agent_id,
            final(self).chunk_size == old(self).chunk_size,
            final(self).record_store == old(self).record_store,
            forall|b: Seq<u8>| old(self).chunk_store.has_addr(b) ==> final(self).chunk_store.has_addr(b) && final(self).chunk_store.bytes_at(b) == old(self).chunk_store.bytes_at(b),
            r matches Ok(rec) ==> rec@.author == old(self).agent_id@ && rec@.receiver
                == file_input@.receiver && rec@.file_name == file_input@.file_name
                && rec@.file_size == file_input@.file_size && rec@.file_type
                == file_input@.file_type && rec@.time_sent == now && rec@.time_received is None
                && rec@.wf() && final(self).chunk_store.all_present(rec@.chunks),
            file_input@.source matches FileSourceView::Bytes(b) ==> ((r matches Ok(rec)
                ==> rec@.chunks.len() == chunks_of(b, old(self).chunk_size as int).len() && (
            forall|i: int|
                0 <= i < rec@.chunks.len() ==> #[trigger] rec@.chunks[i] == sha256_of(
                    chunks_of(b, old(self).chunk_size as int)[i],
                )) && final(self).chunk_store.reassemble_spec(rec@.chunks) == b && (
            rec@.chunks.len() == 0 <==> b.len() == 0)) && (r is Err ==> r == Err::<
                FileMetadataOutput,
                FileError,
            >(FileError::Storage)) && (r is Ok <==> pieces_fit(
                old(self).chunk_store.as_map(),
                old(self).chunk_store.addrs@.len() as int,
                old(self).chunk_store.capacity as int,
                chunks_of(b, old(self).chunk_size as int),
            ))),
            file_input@.source matches FileSourceView::Uploaded { chunks: c, expected_hash_hex: h }
                ==> (*final(self) == *old(self) && (r matches Ok(rec) ==> rec@.chunks == c
                && old(self).chunk_store.all_present(c) && verify_spec(
                old(self).chunk_store.reassemble_spec(c),
                h,
            ) == Ok::<(), IntegrityError>(())) && (!old(self).chunk_store.all_present(c) ==> r
                == Err::<FileMetadataOutput, FileError>(FileError::NotFound)) && ((old(self).chunk_store.all_present(c) && verify_spec(
                old(self).chunk_store.reassemble_spec(c),
                h,
            ) == Err::<(), IntegrityError>(IntegrityError::Mismatch)) ==> r == Err::<
                FileMetadataOutput,
                FileError,
            >(FileError::Integrity(IntegrityError::Mismatch))) && ((old(self).chunk_store.all_present(c) && verify_spec(
                old(self).chunk_store.reassemble_spec(c),
                h,
            ) == Err::<(), IntegrityError>(IntegrityError::BadEncoding)) ==> r == Err::<
                FileMetadataOutput,
                FileError,
            >(FileError::Integrity(IntegrityError::BadEncoding))) && ((old(self).chunk_store.all_present(c) && verify_spec(
                old(self).chunk_store.reassemble_spec(c),
                h,
            ) is Ok) ==> r is Ok)),
    {
        let FileInput { receiver, file_name, file_size, file_type, source } = file_input;
        let addrs: Vec<ChunkAddress>;
        match source {
            FileSource::Bytes(bytes) => {
                match self.chunk_store.store_file(&bytes, self.chunk_size) {
                    Ok(a) => {
                        addrs = a;
                    },
                    Err(_) => {
                        return Err(FileError::Storage);
                    },
                }
            },
            FileSource::Uploaded { chunks, expected_hash_hex } => {
                match self.chunk_store.reassemble(&chunks) {
                    Ok(bytes) => {
                        match verify(&bytes, expected_hash_hex.as_str()) {
                            Ok(_) => {
                                addrs = chunks;
                            },
                            Err(e) => {
                                return Err(FileError::Integrity(e));
                            },
                        }
                    },
                    Err(_) => {
                        return Err(FileError::NotFound);
                    },
                }
            },
        }
        Ok(
            FileMetadataOutput {
                author: self.agent_id.clone(),
                receiver,
                file_name,
                file_size,
                file_type,
                time_sent: now,
                time_received: None,
                chunks: addrs,
            },
        )
    }

    /// The receiver's half of a transfer: stamps the receipt time on a fresh
    /// copy of the incoming record and persists it. On persistence success
    /// the stamped record is reported back, so the sender can mirror it; a
    /// persistence failure is swallowed by design and reported as absence,
    /// and nothing is persisted.
    pub fn receive_file(&mut self, metadata_input: FileMetadataOutput, now: Timestamp) -> (r:
        FileMetadataOption)
        requires
            old(self).wf(),
            metadata_input@.time_received is None,
            ts_le(metadata_input@.time_sent, now),
        ensures
            final(self).wf(),
            final(self).agent_id == old(self).agent_id,
            final(self).chunk_size == old(self).chunk_size,
            final(self).chunk_store == old(self).chunk_store,
            r@ matches Some(rv) ==> rv == (RecordView {
                time_received: Some(now),
                ..metadata_input@
            }) && rv.wf() && final(self).record_store.records() == old(self).record_store.records().push(rv),
            r@ is Some <==> old(self).record_store.entries@.len() < old(self).record_store.capacity,
            r@ is None ==> *final(self) == *old(self),
    {
        let mut file_metadata = FileMetadataEntry::from_output(metadata_input);
        file_metadata.mark_received(now);
        let persisted = file_metadata.duplicate();
        match self.record_store.create(persisted) {
            Ok(_) => FileMetadataOption(Some(FileMetadataOutput::from_entry(file_metadata))),
            Err(_) => FileMetadataOption(None),
        }
    }

    /// The sender's handling of the peer's reply: an unauthorized refusal
    /// fails the transfer; a confirmed receipt is mirrored into the local
    /// record store; a graceful rejection (no record) is returned as absence
    /// with nothing persisted.
    pub fn confirm_send(&mut self, response: RemoteResponse) -> (r: Result<
        FileMetadataOption,
        FileError,
    >)
        requires
            old(self).wf(),
            response matches RemoteResponse::Answered(o) ==> (o@ matches Some(rv) ==> rv.wf()),
        ensures
            final(self).wf(),
            final(self).agent_id == old(self).agent_id,
            final(self).chunk_size == old(self).chunk_size,
            final(self).chunk_store == old(self).chunk_store,
            response is Unauthorized ==> r == Err::<FileMetadataOption, FileError>(
                FileError::Unauthorized,
            ) && *final(self) == *old(self),
            response matches RemoteResponse::Answered(o) ==> ((o@ is None ==> (r matches Ok(x)
                && x@ is None && *final(self) == *old(self))) && (o@ matches Some(rv) ==> ((
            r matches Ok(x) ==> x@ == Some(rv) && final(self).record_store.records() == old(self).record_store.records().push(rv)) && (r is Ok <==> old(self).record_store.entries@.len() < old(self).record_store.capacity) && (r is Err ==> r
                == Err::<FileMetadataOption, FileError>(FileError::Storage) && *final(self)
                == *old(self))))),
    {
        match response {
            RemoteResponse::Unauthorized => Err(FileError::Unauthorized),
            RemoteResponse::Answered(opt) => match opt.0 {
                None => Ok(FileMetadataOption(None)),
                Some(rec) => {
                    let entry = FileMetadataEntry::from_output(rec.duplicate());
                    match self.record_store.create(entry) {
                        Ok(_) => Ok(FileMetadataOption(Some(rec))),
                        Err(_) => Err(FileError::Storage),
                    }
                },
            },
        }
    }

    /// The whole push handshake between two in-process participants: the
    /// sender prepares the record, the receiver stamps and persists its own
    /// copy, and the sender mirrors the receiver's answer. When both parties
    /// live in one process this stands in for the remote invocation; the
    /// receipt stamp never precedes the send stamp. When the send half
    /// succeeds and both record stores have room, the call returns the
    /// receipt-stamped record; it reports absence exactly when the
    /// receiver's store was full.
    pub fn send_file_to(&mut self, receiver: &mut Node, file_input: FileInput, now_sent: Timestamp, now_received: Timestamp) -> (r: Result<
        FileMetadataOption,
        FileError,
    >)
        requires
            old(self).wf(),
            old(receiver).wf(),
            ts_le(now_sent, now_received),
        ensures
            final(self).wf(),
            final(receiver).wf(),
            final(self).agent_id == old(self).agent_id,
            final(receiver).agent_id == old(receiver).agent_id,
            final(receiver).chunk_store == old(receiver).chunk_store,
            r matches Ok(opt) ==> opt@ matches Some(rv) ==> rv.author == old(self).agent_id@
                && rv.receiver == file_input@.receiver && rv.file_name == file_input@.file_name
                && rv.file_size == file_input@.file_size && rv.file_type == file_input@.file_type
                && rv.time_sent == now_sent && rv.time_received == Some(now_received) && rv.wf()
                && final(receiver).record_store.records() == old(receiver).record_store.records().push(rv) && final(self).record_store.records() == old(self).record_store.records().push(rv) && final(self).chunk_store.all_present(rv.chunks),
            r matches Ok(opt) ==> (opt@ is None ==> final(self).record_store == old(self).record_store),
            r matches Ok(opt) ==> (opt@ is None <==> old(receiver).record_store.entries@.len()
                >= old(receiver).record_store.capacity),
            file_input@.source matches FileSourceView::Bytes(b) ==> (r matches Ok(opt) ==> (opt@
                matches Some(rv) ==> final(self).chunk_store.reassemble_spec(rv.chunks) == b)),
            file_input@.source matches FileSourceView::Bytes(b) ==> ((pieces_fit(
                old(self).chunk_store.as_map(),
                old(self).chunk_store.addrs@.len() as int,
                old(self).chunk_store.capacity as int,
                chunks_of(b, old(self).chunk_size as int),
            ) && old(receiver).record_store.entries@.len() < old(receiver).record_store.capacity
                && old(self).record_store.entries@.len() < old(self).record_store.capacity) ==> (
            r matches Ok(opt) && opt@ is Some)),
            file_input@.source matches FileSourceView::Uploaded { chunks: c, expected_hash_hex: h }
                ==> ((old(self).chunk_store.all_present(c) && verify_spec(
                old(self).chunk_store.reassemble_spec(c),
                h,
            ) is Ok && old(receiver).record_store.entries@.len() < old(
                receiver,
            ).record_store.capacity && old(self).record_store.entries@.len() < old(
                self,
            ).record_store.capacity) ==> (r matches Ok(opt) && opt@ is Some)),
    {
        let rec = match self.send_file(file_input, now_sent) {
            Ok(rec) => rec,
            Err(e) => {
                return Err(e);
            },
        };
        let reply = receiver.receive_file(rec, now_received);
        self.confirm_send(RemoteResponse::Answered(reply))
    }

    /// Enumerates every locally persisted record, in store order. An entry
    /// that does not decode is skipped alone: enumeration never fails as a
    /// whole, and every other record is returned.
    pub fn get_all_file_metadata(&self) -> (r: FileMetadataList)
        requires
            self.wf(),
        ensures
            r@ == self.record_store.records(),
    {
        let entries = &self.record_store.entries;
        let mut out: Vec<FileMetadataOutput> = Vec::new();
        let mut i: usize = 0;
        proof {
            assert(entries@.take(0) =~= Seq::<StoredEntry>::empty());
            assert(record_views(out@) =~= decoded_records(entries@.take(0)));
        }
        while i < entries.len()
            invariant
                i <= entries@.len(),
                entries@ == self.record_store.entries@,
                record_views(out@) == decoded_records(entries@.take(i as int)),
            decreases entries@.len() - i,
        {
            let ghost t1 = entries@.take(i as int + 1);
            proof {
                assert(t1.drop_last() =~= entries@.take(i as int));
                assert(t1.last() == entries@[i as int]);
            }
            let ghost pre = out@;
            match &entries[i] {
                StoredEntry::Record(e) => {
                    out.push(FileMetadataOutput::from_entry(e.duplicate()));
                    proof {
                        assert(record_views(out@) =~= record_views(pre).push(e@));
                    }
                },
                StoredEntry::Corrupt => {},
            }
            proof {
                assert(record_views(out@) == decoded_records(t1));
            }
            i = i + 1;
        }
        proof {
            assert(entries@.take(entries@.len() as int) =~= entries@);
        }
        FileMetadataList(out)
    }

    /// Reassembles the file a record describes, replaying its chunk
    /// addresses in order; fails with whatever the reassembly failed with.
    pub fn get_file_from_metadata(&self, file_metadata: FileMetadataOutput) -> (r: Result<
        FileOutput,
        FileError,
    >)
        requires
            self.wf(),
        ensures
            self.chunk_store.all_present(file_metadata@.chunks) ==> (r matches Ok(f) && f@
                == self.chunk_store.reassemble_spec(file_metadata@.chunks)),
            !self.chunk_store.all_present(file_metadata@.chunks) ==> r == Err::<
                FileOutput,
                FileError,
            >(FileError::NotFound),
    {
        match self.chunk_store.reassemble(&file_metadata.chunks) {
            Ok(b) => Ok(FileOutput(b)),
            Err(e) => Err(e),
        }
    }
}

/// The bytes of every retrievable record among `entries`, in order: an
/// entry that does not decode, or whose chunks cannot all be fetched from
/// `cs`, is skipped alone.
pub open spec fn files_of(cs: ChunkStore, entries: Seq<StoredEntry>) -> Seq<Seq<u8>>
    decreases entries.len(),
{
    if entries.len() == 0 {
        Seq::<Seq<u8>>::empty()
    } else {
        let rest = files_of(cs, entries.drop_last());
        match entries.last().decoded() {
            Some(rv) => if cs.all_present(rv.chunks) {
                rest.push(cs.reassemble_spec(rv.chunks))
            } else {
                rest
            },
            None => rest,
        }
    }
}

impl Node {
    /// Reassembles every retrievable stored record's file, in store order.
    /// A record that does not decode or cannot be reassembled is skipped,
    /// not failed.
    pub fn get_all_files(&self) -> (r: FileOutputList)
        requires
            self.wf(),
        ensures
            r@ == files_of(self.chunk_store, self.record_store.entries@),
    {
        let entries = &self.record_store.entries;
        let mut out: Vec<FileOutput> = Vec::new();
        let mut i: usize = 0;
        proof {
            assert(entries@.take(0) =~= Seq::<StoredEntry>::empty());
            assert(out@.map_values(|f: FileOutput| f@) =~= files_of(
                self.chunk_store,
                entries@.take(0),
            ));
        }
        while i < entries.len()
            invariant
                self.wf(),
                i <= entries@.len(),
                entries@ == self.record_store.entries@,
                out@.map_values(|f: FileOutput| f@) == files_of(
                    self.chunk_store,
                    entries@.take(i as int),
                ),
            decreases entries@.len() - i,
        {
            let ghost t1 = entries@.take(i as int + 1);
            proof {
                assert(t1.drop_last() =~= entries@.take(i as int));
                assert(t1.last() == entries@[i as int]);
            }
            let ghost pre = out@;
            match &entries[i] {
                StoredEntry::Record(e) => {
                    match self.chunk_store.reassemble(&e.chunks) {
                        Ok(b) => {
                            proof {
                                assert(addr_views(e.chunks@) == e@.chunks);
                            }
                            out.push(FileOutput(b));
                            proof {
                                assert(out@.map_values(|f: FileOutput| f@) =~= pre.map_values(
                                    |f: FileOutput| f@,
                                ).push(self.chunk_store.reassemble_spec(e@.chunks)));
                            }
                        },
                        Err(_) => {},
                    }
                },
                StoredEntry::Corrupt => {},
            }
            proof {
                assert(out@.map_values(|f: FileOutput| f@) == files_of(self.chunk_store, t1));
            }
            i = i + 1;
        }
        proof {
            assert(entries@.take(entries@.len() as int) =~= entries@);
        }
        FileOutputList(out)
    }

    /// Partitions all stored records by author, for the requested agents.
    /// The identifiers are deduplicated first, so each requested agent gets
    /// exactly one slot, holding exactly the decodable stored records it
    /// authored, in store order; records by other authors are visited but
    /// not retained.
    pub fn get_all_file_metadata_from_addresses(&self, agent_list: AgentListWrapper) -> (r:
        FileMetadataByAgentListWrapper)
        requires
            self.wf(),
        ensures
            r@ == self.record_store.by_agent_spec(agent_list@),
    {
        let deduped = dedup_agents(&agent_list.0);
        let ghost dd = dedup_spec(agent_list@);
        proof {
            assert(string_views(deduped@) == dd);
        }
        let mut groups: Vec<FileMetadataByAgent> = Vec::new();
        let mut j: usize = 0;
        while j < deduped.len()
            invariant
                j <= deduped@.len(),
                string_views(deduped@) == dd,
                groups@.len() == j,
                forall|q: int| 0 <= q < j ==> (#[trigger] groups@[q]).author@ == dd[q]
                    && groups@[q].metadata@.len() == 0,
            decreases deduped@.len() - j,
        {
            groups.push(FileMetadataByAgent { author: deduped[j].clone(), metadata: Vec::new() });
            j = j + 1;
        }
        let entries = &self.record_store.entries;
        let mut i: usize = 0;
        proof {
            assert(entries@.take(0) =~= Seq::<StoredEntry>::empty());
            assert forall|q: int| 0 <= q < dd.len() implies record_views(
                (#[trigger] groups@[q]).metadata@,
            ) == author_filter(entries@.take(0), dd[q]) by {
                assert(record_views(groups@[q].metadata@) =~= Seq::<RecordView>::empty());
            }
        }
        while i < entries.len()
            invariant
                i <= entries@.len(),
                entries@ == self.record_store.entries@,
                groups@.len() == dd.len(),
                forall|q: int| 0 <= q < dd.len() ==> (#[trigger] groups@[q]).author@ == dd[q],
                forall|q: int| 0 <= q < dd.len() ==> record_views(
                    (#[trigger] groups@[q]).metadata@,
                ) == author_filter(entries@.take(i as int), dd[q]),
            decreases entries@.len() - i,
        {
            let ghost t1 = entries@.take(i as int + 1);
            proof {
                assert(t1.drop_last() =~= entries@.take(i as int));
                assert(t1.last() == entries@[i as int]);
            }
            match &entries[i] {
                StoredEntry::Record(e) => {
                    let ghost rv = e@;
                    let ghost pre_groups = groups@;
                    let mut q: usize = 0;
                    while q < groups.len()
                        invariant
                            q <= groups@.len(),
                            groups@.len() == pre_groups.len(),
                            rv == e@,
                            forall|p: int| q <= p < pre_groups.len() ==> groups@[p]
                                == pre_groups[p],
                            forall|p: int| 0 <= p < q ==> (#[trigger] groups@[p]).author@
                                == pre_groups[p].author@,
                            forall|p: int| 0 <= p < q ==> record_views(
                                (#[trigger] groups@[p]).metadata@,
                            ) == (if rv.author == pre_groups[p].author@ {
                                record_views(pre_groups[p].metadata@).push(rv)
                            } else {
                                record_views(pre_groups[p].metadata@)
                            }),
                        decreases groups@.len() - q,
                    {
                        let ghost pre_meta = groups@[q as int].metadata@;
                        if groups[q].author == e.author {
                            let dup = FileMetadataOutput::from_entry(e.duplicate());
                            groups[q].metadata.push(dup);
                            proof {
                                assert(record_views(groups@[q as int].metadata@) =~= record_views(
                                    pre_meta,
                                ).push(rv));
                            }
                        }
                        q = q + 1;
                    }
                },
                StoredEntry::Corrupt => {},
            }
            proof {
                assert forall|q: int| 0 <= q < dd.len() implies record_views(
                    (#[trigger] groups@[q]).metadata@,
                ) == author_filter(t1, dd[q]) by {}
            }
            i = i + 1;
        }
        proof {
            assert(entries@.take(entries@.len() as int) =~= entries@);
            assert(FileMetadataByAgentListWrapper(groups)@ =~= self.record_store.by_agent_spec(
                agent_list@,
            ));
        }
        FileMetadataByAgentListWrapper(groups)
    }
}

} // verus!
