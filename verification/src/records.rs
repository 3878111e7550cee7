use vstd::prelude::*;
use crate::chunks::ChunkAddress;
use crate::chunks::addr_views;
use crate::chunks::copy_addrs;
use crate::timestamp::Timestamp;
use crate::timestamp::ts_le;

verus! {

/// The mathematical image of a transfer record: every field as a plain value.
pub ghost struct RecordView {
    pub author: Seq<char>,
    pub receiver: Seq<char>,
    pub file_name: Seq<char>,
    pub file_size: int,
    pub file_type: Seq<char>,
    pub time_sent: Timestamp,
    pub time_received: Option<Timestamp>,
    pub chunks: Seq<Seq<u8>>,
}

impl RecordView {
    /// A receipt stamp, when present, never precedes the send stamp.
    pub open spec fn wf(self) -> bool {
        match self.time_received {
            Some(t) => ts_le(self.time_sent, t),
            None => true,
        }
    }
}

/// A transfer record as one party persists it: participants, file
/// attributes, timestamps and the ordered chunk addresses.
#[derive(Debug)]
pub struct FileMetadataEntry {
    pub author: String,
    pub receiver: String,
    pub file_name: String,
    pub file_size: usize,
    pub file_type: String,
    pub time_sent: Timestamp,
    pub time_received: Option<Timestamp>,
    pub chunks: Vec<ChunkAddress>,
}

impl View for FileMetadataEntry {
    type V = RecordView;

    open spec fn view(&self) -> RecordView {
        RecordView {
            author: self.author@,
            receiver: self.receiver@,
            file_name: self.file_name@,
            file_size: self.file_size as int,
            file_type: self.file_type@,
            time_sent: self.time_sent,
            time_received: self.time_received,
            chunks: addr_views(self.chunks@),
        }
    }
}

/// A transfer record as it crosses the wire or is handed back to a caller;
/// the same fields as the persisted entry, held as a distinct copy.
#[derive(Debug)]
pub struct FileMetadataOutput {
    pub author: String,
    pub receiver: String,
    pub file_name: String,
    pub file_size: usize,
    pub file_type: String,
    pub time_sent: Timestamp,
    pub time_received: Option<Timestamp>,
    pub chunks: Vec<ChunkAddress>,
}

impl View for FileMetadataOutput {
    type V = RecordView;

    open spec fn view(&self) -> RecordView {
        RecordView {
            author: self.author@,
            receiver: self.receiver@,
            file_name: self.file_name@,
            file_size: self.file_size as int,
            file_type: self.file_type@,
            time_sent: self.time_sent,
            time_received: self.time_received,
            chunks: addr_views(self.chunks@),
        }
    }
}

impl FileMetadataEntry {
    /// Rebuilds a persisted entry from a wire record, field for field.
    pub fn from_output(file_metadata_output: FileMetadataOutput) -> (r: FileMetadataEntry)
        ensures
            r@ == file_metadata_output@,
    {
        FileMetadataEntry {
            author: file_metadata_output.author,
            receiver: file_metadata_output.receiver,
            file_name: file_metadata_output.file_name,
            file_size: file_metadata_output.file_size,
            file_type: file_metadata_output.file_type,
            time_sent: file_metadata_output.time_sent,
            time_received: file_metadata_output.time_received,
            chunks: file_metadata_output.chunks,
        }
    }

    /// A fresh entry with equal fields.
    pub fn duplicate(&self) -> (r: FileMetadataEntry)
        ensures
            r@ == self@,
    {
        FileMetadataEntry {
            author: self.author.clone(),
            receiver: self.receiver.clone(),
            file_name: self.file_name.clone(),
            file_size: self.file_size,
            file_type: self.file_type.clone(),
            time_sent: self.time_sent,
            time_received: self.time_received,
            chunks: copy_addrs(&self.chunks),
        }
    }

    /// Stamps the receipt time. The stamp moves only from absent to present,
    /// never back, and never precedes the send time; no other field changes.
    pub fn mark_received(&mut self, now: Timestamp)
        requires
            old(self)@.time_received is None,
            ts_le(old(self)@.time_sent, now),
        ensures
            final(self)@ == (RecordView { time_received: Some(now), ..old(self)@ }),
            final(self)@.wf(),
    {
        self.time_received = Some(now);
    }
}

impl FileMetadataOutput {
    /// Rebuilds a wire record from a persisted entry, field for field.
    pub fn from_entry(file_metadata_entry: FileMetadataEntry) -> (r: FileMetadataOutput)
        ensures
            r@ == file_metadata_entry@,
    {
        FileMetadataOutput {
            author: file_metadata_entry.author,
            receiver: file_metadata_entry.receiver,
            file_name: file_metadata_entry.file_name,
            file_size: file_metadata_entry.file_size,
            file_type: file_metadata_entry.file_type,
            time_sent: file_metadata_entry.time_sent,
            time_received: file_metadata_entry.time_received,
            chunks: file_metadata_entry.chunks,
        }
    }

    /// A fresh wire record with equal fields.
    pub fn duplicate(&self) -> (r: FileMetadataOutput)
        ensures
            r@ == self@,
    {
        FileMetadataOutput {
            author: self.author.clone(),
            receiver: self.receiver.clone(),
            file_name: self.file_name.clone(),
            file_size: self.file_size,
            file_type: self.file_type.clone(),
            time_sent: self.time_sent,
            time_received: self.time_received,
            chunks: copy_addrs(&self.chunks),
        }
    }
}

/// The views of a list of identifier strings, in order.
pub open spec fn string_views(s: Seq<String>) -> Seq<Seq<char>> {
    s.map_values(|x: String| x@)
}

/// The views of a list of wire records, in order.
pub open spec fn record_views(s: Seq<FileMetadataOutput>) -> Seq<RecordView> {
    s.map_values(|r: FileMetadataOutput| r@)
}

/// What a receive reports back: the receipt-stamped record when persistence
/// succeeded, absence when it did not.
#[derive(Debug)]
pub struct FileMetadataOption(pub Option<FileMetadataOutput>);

impl View for FileMetadataOption {
    type V = Option<RecordView>;

    open spec fn view(&self) -> Option<RecordView> {
        match self.0 {
            Some(r) => Some(r@),
            None => None,
        }
    }
}

/// All decodable stored records, in store order.
#[derive(Debug)]
pub struct FileMetadataList(pub Vec<FileMetadataOutput>);

impl View for FileMetadataList {
    type V = Seq<RecordView>;

    open spec fn view(&self) -> Seq<RecordView> {
        record_views(self.0@)
    }
}

/// One reassembled file.
#[derive(Debug)]
pub struct FileOutput(pub Vec<u8>);

impl View for FileOutput {
    type V = Seq<u8>;

    open spec fn view(&self) -> Seq<u8> {
        self.0@
    }
}

/// The reassembled bytes of every retrievable stored record, in store order.
#[derive(Debug)]
pub struct FileOutputList(pub Vec<FileOutput>);

impl View for FileOutputList {
    type V = Seq<Seq<u8>>;

    open spec fn view(&self) -> Seq<Seq<u8>> {
        self.0@.map_values(|f: FileOutput| f@)
    }
}

/// A caller-supplied list of agent identifiers, possibly with duplicates.
#[derive(Debug)]
pub struct AgentListWrapper(pub Vec<String>);

impl View for AgentListWrapper {
    type V = Seq<Seq<char>>;

    open spec fn view(&self) -> Seq<Seq<char>> {
        string_views(self.0@)
    }
}

/// The mathematical image of one agent's slot in the per-agent index.
pub ghost struct ByAgentView {
    pub author: Seq<char>,
    pub metadata: Seq<RecordView>,
}

/// One agent together with the stored records it authored.
#[derive(Debug)]
pub struct FileMetadataByAgent {
    pub author: String,
    pub metadata: Vec<FileMetadataOutput>,
}

impl View for FileMetadataByAgent {
    type V = ByAgentView;

    open spec fn view(&self) -> ByAgentView {
        ByAgentView { author: self.author@, metadata: record_views(self.metadata@) }
    }
}

/// The per-agent partition of all stored records, one slot for each
/// requested agent after deduplication.
#[derive(Debug)]
pub struct FileMetadataByAgentListWrapper(pub Vec<FileMetadataByAgent>);

impl View for FileMetadataByAgentListWrapper {
    type V = Seq<ByAgentView>;

    open spec fn view(&self) -> Seq<ByAgentView> {
        self.0@.map_values(|g: FileMetadataByAgent| g@)
    }
}

/// The mathematical image of what a sender supplies.
pub ghost enum FileSourceView {
    /// Raw bytes that the protocol itself splits and stores.
    Bytes(Seq<u8>),
    /// Addresses of chunks uploaded beforehand, with the declared
    /// whole-file digest they must verify against.
    Uploaded { chunks: Seq<Seq<u8>>, expected_hash_hex: Seq<char> },
}

/// What a sender supplies as the file to transfer.
#[derive(Debug)]
pub enum FileSource {
    /// Raw bytes that the protocol itself splits and stores.
    Bytes(Vec<u8>),
    /// Addresses of chunks uploaded beforehand, with the declared
    /// whole-file digest they must verify against before any remote call.
    Uploaded { chunks: Vec<ChunkAddress>, expected_hash_hex: String },
}

impl View for FileSource {
    type V = FileSourceView;

    open spec fn view(&self) -> FileSourceView {
        match self {
            FileSource::Bytes(b) => FileSourceView::Bytes(b@),
            FileSource::Uploaded { chunks, expected_hash_hex } => FileSourceView::Uploaded {
                chunks: addr_views(chunks@),
                expected_hash_hex: expected_hash_hex@,
            },
        }
    }
}

/// The mathematical image of a sender's input.
pub ghost struct FileInputView {
    pub receiver: Seq<char>,
    pub file_name: Seq<char>,
    pub file_size: int,
    pub file_type: Seq<char>,
    pub source: FileSourceView,
}

/// What a caller hands to `send_file`: the receiver's identity, the file
/// attributes, and the file itself.
#[derive(Debug)]
pub struct FileInput {
    pub receiver: String,
    pub file_name: String,
    pub file_size: usize,
    pub file_type: String,
    pub source: FileSource,
}

impl View for FileInput {
    type V = FileInputView;

    open spec fn view(&self) -> FileInputView {
        FileInputView {
            receiver: self.receiver@,
            file_name: self.file_name@,
            file_size: self.file_size as int,
            file_type: self.file_type@,
            source: self.source@,
        }
    }
}

} // verus!
