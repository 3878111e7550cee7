use vstd::prelude::*;
use vstd::std_specs::cmp::PartialEqSpec;
use crate::errors::FileError;
use crate::hashing::sha256;
use crate::hashing::sha256_of;

verus! {

/// One chunk of a file: an immutable run of raw bytes.
#[derive(Clone, Debug, PartialEq, Eq)]
pub struct FileChunk(pub Vec<u8>);

impl View for FileChunk {
    type V = Seq<u8>;

    open spec fn view(&self) -> Seq<u8> {
        self.0@
    }
}

/// The content address of a chunk: the SHA-256 digest of its bytes.
#[derive(Clone, Debug, PartialEq, Eq)]
pub struct ChunkAddress(pub Vec<u8>);

impl View for ChunkAddress {
    type V = Seq<u8>;

    open spec fn view(&self) -> Seq<u8> {
        self.0@
    }
}

/// Copies a byte vector.
pub fn copy_bytes(v: &Vec<u8>) -> (r: Vec<u8>)
    ensures
        r@ == v@,
{
    let mut out: Vec<u8> = Vec::new();
    let mut i: usize = 0;
    while i < v.len()
        invariant
            i <= v@.len(),
            out@ == v@.take(i as int),
        decreases v@.len() - i,
    {
        out.push(v[i]);
        proof {
            assert(v@.take(i as int + 1) =~= v@.take(i as int).push(v@[i as int]));
        }
        i = i + 1;
    }
    proof {
        assert(v@.take(v@.len() as int) =~= v@);
    }
    out
}

impl FileChunk {
    /// A fresh chunk with the same bytes.
    pub fn duplicate(&self) -> (r: FileChunk)
        ensures
            r@ == self@,
    {
        FileChunk(copy_bytes(&self.0))
    }
}

impl ChunkAddress {
    /// A fresh address with the same digest bytes.
    pub fn duplicate(&self) -> (r: ChunkAddress)
        ensures
            r@ == self@,
    {
        ChunkAddress(copy_bytes(&self.0))
    }
}

/// Content equality of two addresses.
pub fn addr_eq(a: &ChunkAddress, b: &ChunkAddress) -> (r: bool)
    ensures
        r == (a@ == b@),
{
    let r = a.0 == b.0;
    proof {
        assert(<Vec<u8> as PartialEqSpec>::obeys_eq_spec());
        if r {
            assert(a.0@ =~= b.0@);
        } else {
            if a.0@ == b.0@ {
                assert(a.0.eq_spec(&b.0));
            }
        }
    }
    r
}

/// Byte equality of two buffers.
pub fn bytes_eq(a: &Vec<u8>, b: &Vec<u8>) -> (r: bool)
    ensures
        r == (a@ == b@),
{
    let r = a == b;
    proof {
        assert(<Vec<u8> as PartialEqSpec>::obeys_eq_spec());
        if r {
            assert(a@ =~= b@);
        } else {
            if a@ == b@ {
                assert(a.eq_spec(b));
            }
        }
    }
    r
}

/// The consecutive slices of at most `k` bytes that partition `b`, in order;
/// the last slice may be shorter, and an empty `b` has no slices.
pub open spec fn chunks_of(b: Seq<u8>, k: int) -> Seq<Seq<u8>>
    decreases b.len(),
{
    if k < 1 || b.len() == 0 {
        Seq::<Seq<u8>>::empty()
    } else if b.len() <= k {
        seq![b]
    } else {
        seq![b.take(k)] + chunks_of(b.skip(k), k)
    }
}

/// Splitting loses and reorders nothing: the slices of `b`, concatenated in
/// order, are `b` again.
pub proof fn lemma_chunks_of_flatten(b: Seq<u8>, k: int)
    requires
        k >= 1,
    ensures
        chunks_of(b, k).flatten() == b,
    decreases b.len(),
{
    if b.len() == 0 {
        assert(chunks_of(b, k).flatten() =~= b);
    } else if b.len() <= k {
        let s = chunks_of(b, k);
        assert(s.drop_first() =~= Seq::<Seq<u8>>::empty());
        assert(s.flatten() == s.first() + s.drop_first().flatten());
        assert(s.first() == b);
        assert(s.flatten() =~= b);
    } else {
        lemma_chunks_of_flatten(b.skip(k), k);
        let s = chunks_of(b, k);
        assert(s.drop_first() =~= chunks_of(b.skip(k), k));
        assert(s.flatten() == b.take(k) + chunks_of(b.skip(k), k).flatten());
        assert(b.take(k) + b.skip(k) =~= b);
    }
}

/// Every slice of a split is nonempty and at most `k` long, and a nonempty
/// buffer yields at least one slice.
pub proof fn lemma_chunks_of_sizes(b: Seq<u8>, k: int)
    requires
        k >= 1,
    ensures
        forall|i: int| 0 <= i < chunks_of(b, k).len() ==> 1 <= (#[trigger] chunks_of(b, k)[i]).len() <= k,
        chunks_of(b, k).len() == 0 <==> b.len() == 0,
    decreases b.len(),
{
    if b.len() > k {
        lemma_chunks_of_sizes(b.skip(k), k);
        assert forall|i: int| 0 <= i < chunks_of(b, k).len() implies 1 <= (#[trigger] chunks_of(b, k)[i]).len() <= k by {
            if i > 0 {
                assert(chunks_of(b, k)[i] == chunks_of(b.skip(k), k)[i - 1]);
            }
        }
    }
}

/// Partitions `bytes` into consecutive chunks of at most `chunk_size` bytes.
pub fn split(bytes: &Vec<u8>, chunk_size: usize) -> (r: Vec<FileChunk>)
    requires
        chunk_size >= 1,
    ensures
        r@.map_values(|c: FileChunk| c@) == chunks_of(bytes@, chunk_size as int),
{
    let n = bytes.len();
    let mut out: Vec<FileChunk> = Vec::new();
    let mut i: usize = 0;
    proof {
        assert(bytes@.skip(0) =~= bytes@);
        assert(out@.map_values(|c: FileChunk| c@) + chunks_of(bytes@, chunk_size as int)
            =~= chunks_of(bytes@, chunk_size as int));
    }
    while i < n
        invariant
            chunk_size >= 1,
            n == bytes@.len(),
            i <= n,
            chunks_of(bytes@, chunk_size as int) == out@.map_values(|c: FileChunk| c@)
                + chunks_of(bytes@.skip(i as int), chunk_size as int),
        decreases n - i,
    {
        let end = if n - i < chunk_size { n } else { i + chunk_size };
        let mut piece: Vec<u8> = Vec::new();
        let mut j: usize = i;
        while j < end
            invariant
                i <= j <= end <= bytes@.len(),
                n == bytes@.len(),
                piece@ == bytes@.subrange(i as int, j as int),
            decreases end - j,
        {
            piece.push(bytes[j]);
            proof {
                assert(bytes@.subrange(i as int, j as int + 1) =~= bytes@.subrange(
                    i as int,
                    j as int,
                ).push(bytes@[j as int]));
            }
            j = j + 1;
        }
        proof {
            let rest = bytes@.skip(i as int);
            if rest.len() <= chunk_size as int {
                assert(end == n);
                assert(piece@ =~= rest);
                assert(chunks_of(rest, chunk_size as int) =~= seq![piece@]);
                assert(bytes@.skip(end as int) =~= Seq::<u8>::empty());
            } else {
                assert(end == i + chunk_size);
                assert(piece@ =~= rest.take(chunk_size as int));
                assert(rest.skip(chunk_size as int) =~= bytes@.skip(end as int));
                assert(chunks_of(rest, chunk_size as int) == seq![piece@] + chunks_of(
                    bytes@.skip(end as int),
                    chunk_size as int,
                ));
            }
            assert(out@.push(FileChunk(piece)).map_values(|c: FileChunk| c@) =~= out@.map_values(
                |c: FileChunk| c@,
            ).push(piece@));
        }
        out.push(FileChunk(piece));
        i = end;
    }
    proof {
        assert(bytes@.skip(n as int) =~= Seq::<u8>::empty());
        assert(out@.map_values(|c: FileChunk| c@) + chunks_of(Seq::<u8>::empty(), chunk_size as int)
            =~= out@.map_values(|c: FileChunk| c@));
    }
    out
}

/// Copies an address list, element by element.
pub fn copy_addrs(v: &Vec<ChunkAddress>) -> (r: Vec<ChunkAddress>)
    ensures
        addr_views(r@) == addr_views(v@),
        r@.len() == v@.len(),
{
    let mut out: Vec<ChunkAddress> = Vec::new();
    let mut i: usize = 0;
    while i < v.len()
        invariant
            i <= v@.len(),
            out@.len() == i,
            forall|j: int| 0 <= j < i ==> #[trigger] out@[j]@ == v@[j]@,
        decreases v@.len() - i,
    {
        out.push(v[i].duplicate());
        i = i + 1;
    }
    proof {
        assert(addr_views(out@) =~= addr_views(v@));
    }
    out
}

/// The views of a list of addresses, in order.
pub open spec fn addr_views(v: Seq<ChunkAddress>) -> Seq<Seq<u8>> {
    v.map_values(|a: ChunkAddress| a@)
}

/// Whether a run of pieces can all be stored, in order, into a store whose
/// contents are `m`, holding `len` entries with room for `cap`: each piece
/// either already sits under its digest with the same bytes, or its digest
/// is new and one more entry fits.
pub open spec fn pieces_fit(
    m: Map<Seq<u8>, Seq<u8>>,
    len: int,
    cap: int,
    pieces: Seq<Seq<u8>>,
) -> bool
    decreases pieces.len(),
{
    if pieces.len() == 0 {
        true
    } else {
        let p = pieces[0];
        let d = sha256_of(p);
        if m.contains_key(d) {
            m[d] == p && pieces_fit(m, len, cap, pieces.skip(1))
        } else {
            len < cap && pieces_fit(m.insert(d, p), len + 1, cap, pieces.skip(1))
        }
    }
}

/// A bounded, content-addressed chunk store, standing for the host's
/// persistence of `file_chunk` entries: each chunk is keyed by the SHA-256
/// digest of its bytes.
pub struct ChunkStore {
    pub addrs: Vec<ChunkAddress>,
    pub chunks: Vec<FileChunk>,
    pub capacity: usize,
}

impl ChunkStore {
    /// The stored addresses, in insertion order.
    pub open spec fn addr_seq(self) -> Seq<Seq<u8>> {
        self.addrs@.map_values(|a: ChunkAddress| a@)
    }

    /// The stored chunks' bytes, in insertion order.
    pub open spec fn chunk_seq(self) -> Seq<Seq<u8>> {
        self.chunks@.map_values(|c: FileChunk| c@)
    }

    /// Well-formed: one chunk for each address, each address the digest of
    /// its chunk's bytes, no address stored twice, and no more entries than
    /// the capacity allows.
    pub open spec fn wf(self) -> bool {
        &&& self.addrs@.len() == self.chunks@.len()
        &&& self.addrs@.len() <= self.capacity
        &&& (forall|i: int| 0 <= i < self.addrs@.len() ==> #[trigger] self.addr_seq()[i]
            == sha256_of(self.chunk_seq()[i]))
        &&& (forall|i: int, j: int| #![trigger self.addr_seq()[i], self.addr_seq()[j]]
            0 <= i < j < self.addrs@.len() ==> self.addr_seq()[i] != self.addr_seq()[j])
    }

    /// Some chunk is stored under address `a`.
    pub open spec fn has_addr(self, a: Seq<u8>) -> bool {
        exists|i: int| 0 <= i < self.addr_seq().len() && #[trigger] self.addr_seq()[i] == a
    }

    /// The position of the entry stored under address `a`.
    pub open spec fn index_of(self, a: Seq<u8>) -> int {
        choose|i: int| 0 <= i < self.addr_seq().len() && #[trigger] self.addr_seq()[i] == a
    }

    /// The bytes stored under address `a`.
    pub open spec fn bytes_at(self, a: Seq<u8>) -> Seq<u8> {
        self.chunk_seq()[self.index_of(a)]
    }

    /// The store's contents as a map from address to stored bytes.
    pub open spec fn as_map(self) -> Map<Seq<u8>, Seq<u8>> {
        Map::new(|a: Seq<u8>| self.has_addr(a), |a: Seq<u8>| self.bytes_at(a))
    }

    /// In a well-formed store a stored address has exactly one position.
    pub proof fn lemma_index_of(self, a: Seq<u8>)
        requires
            self.wf(),
            self.has_addr(a),
        ensures
            0 <= self.index_of(a) < self.addr_seq().len(),
            self.addr_seq()[self.index_of(a)] == a,
            forall|i: int| 0 <= i < self.addr_seq().len() && #[trigger] self.addr_seq()[i] == a
                ==> i == self.index_of(a),
    {
        let k = self.index_of(a);
        assert(0 <= k < self.addr_seq().len() && self.addr_seq()[k] == a);
        assert forall|i: int| 0 <= i < self.addr_seq().len() && #[trigger] self.addr_seq()[i] == a
            implies i == k by {
            if i < k {
                assert(self.addr_seq()[i] != self.addr_seq()[k]);
            } else if i > k {
                assert(self.addr_seq()[k] != self.addr_seq()[i]);
            }
        }
    }

    /// A fresh, empty store with room for `capacity` chunks.
    pub fn new(capacity: usize) -> (r: ChunkStore)
        ensures
            r.wf(),
            r.capacity == capacity,
            r.addr_seq().len() == 0,
            forall|a: Seq<u8>| !r.has_addr(a),
    {
        ChunkStore { addrs: Vec::new(), chunks: Vec::new(), capacity }
    }

    /// Persists a chunk under the digest of its bytes and returns that
    /// address; storing the same bytes again returns the same address without
    /// duplicating the entry. Fails with `Storage` when the chunk is new and
    /// the store is full, or when a different chunk already sits under the
    /// digest: one address names one content.
    pub fn store(&mut self, chunk: FileChunk) -> (r: Result<ChunkAddress, FileError>)
        requires
            old(self).wf(),
        ensures
            final(self).wf(),
            final(self).capacity == old(self).capacity,
            r matches Ok(a) ==> a@ == sha256_of(chunk@),
            r is Ok ==> final(self).has_addr(sha256_of(chunk@)) && final(self).bytes_at(
                sha256_of(chunk@),
            ) == chunk@,
            r is Ok <==> ((old(self).has_addr(sha256_of(chunk@)) && old(self).bytes_at(
                sha256_of(chunk@),
            ) == chunk@) || (!old(self).has_addr(sha256_of(chunk@)) && old(self).addrs@.len()
                < old(self).capacity)),
            r is Err ==> r == Err::<ChunkAddress, FileError>(FileError::Storage) && *final(self)
                == *old(self),
            r is Ok ==> final(self).as_map() == old(self).as_map().insert(
                sha256_of(chunk@),
                chunk@,
            ),
            r is Ok ==> final(self).addrs@.len() == old(self).addrs@.len() + (
            if old(self).has_addr(sha256_of(chunk@)) {
                0int
            } else {
                1int
            }),
            forall|b: Seq<u8>| old(self).has_addr(b) ==> final(self).has_addr(b)
                && final(self).bytes_at(b) == old(self).bytes_at(b),
            forall|b: Seq<u8>| final(self).has_addr(b) ==> old(self).has_addr(b) || b
                == sha256_of(chunk@),
    {
        let digest = sha256(chunk.0.as_slice());
        let addr = ChunkAddress(digest);
        let ghost d = sha256_of(chunk@);
        let mut i: usize = 0;
        while i < self.addrs.len()
            invariant
                self.wf(),
                *self == *old(self),
                i <= self.addrs@.len(),
                addr@ == d,
                d == sha256_of(chunk@),
                forall|j: int| 0 <= j < i ==> #[trigger] self.addr_seq()[j] != d,
            decreases self.addrs@.len() - i,
        {
            if addr_eq(&self.addrs[i], &addr) {
                proof {
                    assert(self.addr_seq()[i as int] == d);
                    assert(self.has_addr(d));
                    self.lemma_index_of(d);
                    assert(self.index_of(d) == i as int);
                    assert(self.bytes_at(d) == self.chunk_seq()[i as int]);
                }
                if bytes_eq(&self.chunks[i].0, &chunk.0) {
                    proof {
                        assert(self.bytes_at(d) == chunk@);
                        assert(self.as_map() =~= self.as_map().insert(d, chunk@));
                    }
                    return Ok(addr);
                } else {
                    return Err(FileError::Storage);
                }
            }
            i = i + 1;
        }
        proof {
            if self.has_addr(d) {
                let k = choose|k: int| 0 <= k < self.addr_seq().len() && #[trigger] self.addr_seq()[k] == d;
                assert(self.addr_seq()[k] != d);
            }
        }
        if self.addrs.len() < self.capacity {
            let ret = addr.duplicate();
            let ghost pre = *self;
            self.addrs.push(addr);
            self.chunks.push(chunk);
            proof {
                let n = pre.addr_seq().len();
                assert(self.addr_seq() =~= pre.addr_seq().push(d));
                assert(self.chunk_seq() =~= pre.chunk_seq().push(chunk@));
                assert forall|p: int, q: int| #![trigger self.addr_seq()[p], self.addr_seq()[q]]
                    0 <= p < q < self.addrs@.len() implies self.addr_seq()[p] != self.addr_seq()[q] by {
                    if q == n {
                        assert(self.addr_seq()[p] == pre.addr_seq()[p]);
                    }
                }
                assert(self.wf());
                assert(self.addr_seq()[n as int] == d);
                assert(self.has_addr(d));
                self.lemma_index_of(d);
                assert(self.bytes_at(d) == chunk@);
                assert forall|b: Seq<u8>| pre.has_addr(b) implies self.has_addr(b) && self.bytes_at(b)
                    == pre.bytes_at(b) by {
                    pre.lemma_index_of(b);
                    let k = pre.index_of(b);
                    assert(self.addr_seq()[k] == b);
                    assert(self.has_addr(b));
                    self.lemma_index_of(b);
                    assert(self.index_of(b) == k);
                }
                assert forall|b: Seq<u8>| self.has_addr(b) implies pre.has_addr(b) || b == d by {
                    self.lemma_index_of(b);
                    let k = self.index_of(b);
                    if k < n {
                        assert(pre.addr_seq()[k] == b);
                    }
                }
                assert(self.addrs@.len() == pre.addrs@.len() + 1);
                assert(self.as_map() =~= pre.as_map().insert(d, chunk@));
            }
            Ok(ret)
        } else {
            Err(FileError::Storage)
        }
    }

    /// Retrieves the chunk stored under `address`; `NotFound` when no chunk
    /// is stored there.
    pub fn fetch(&self, address: &ChunkAddress) -> (r: Result<FileChunk, FileError>)
        requires
            self.wf(),
        ensures
            self.has_addr(address@) ==> (r matches Ok(c) && c@ == self.bytes_at(address@)),
            !self.has_addr(address@) ==> r == Err::<FileChunk, FileError>(FileError::NotFound),
    {
        let mut i: usize = 0;
        while i < self.addrs.len()
            invariant
                self.wf(),
                i <= self.addrs@.len(),
                forall|j: int| 0 <= j < i ==> #[trigger] self.addr_seq()[j] != address@,
            decreases self.addrs@.len() - i,
        {
            if addr_eq(&self.addrs[i], address) {
                proof {
                    assert(self.addr_seq()[i as int] == address@);
                    assert(self.has_addr(address@));
                    self.lemma_index_of(address@);
                    assert(self.index_of(address@) == i as int);
                }
                return Ok(self.chunks[i].duplicate());
            }
            i = i + 1;
        }
        proof {
            if self.has_addr(address@) {
                let k = choose|k: int| 0 <= k < self.addr_seq().len() && #[trigger] self.addr_seq()[k]
                    == address@;
                assert(self.addr_seq()[k] != address@);
            }
        }
        Err(FileError::NotFound)
    }

    /// All of `addrs` name stored chunks.
    pub open spec fn all_present(self, addrs: Seq<Seq<u8>>) -> bool {
        forall|i: int| 0 <= i < addrs.len() ==> self.has_addr(#[trigger] addrs[i])
    }

    /// The bytes an ordered address list reassembles to: the addressed
    /// chunks' bytes, concatenated in list order.
    pub open spec fn reassemble_spec(self, addrs: Seq<Seq<u8>>) -> Seq<u8> {
        addrs.map_values(|a: Seq<u8>| self.bytes_at(a)).flatten()
    }

    /// Fetches each address in order and concatenates the chunks' bytes. One
    /// absent address aborts the whole operation with `NotFound`: no partial
    /// result. The order of `addresses` determines the output byte order.
    pub fn reassemble(&self, addresses: &Vec<ChunkAddress>) -> (r: Result<Vec<u8>, FileError>)
        requires
            self.wf(),
        ensures
            self.all_present(addr_views(addresses@)) ==> (r matches Ok(b) && b@
                == self.reassemble_spec(addr_views(addresses@))),
            !self.all_present(addr_views(addresses@)) ==> r == Err::<Vec<u8>, FileError>(
                FileError::NotFound,
            ),
    {
        let ghost avs = addr_views(addresses@);
        let mut out: Vec<u8> = Vec::new();
        let mut i: usize = 0;
        proof {
            assert(avs.take(0).map_values(|a: Seq<u8>| self.bytes_at(a)) =~= Seq::<Seq<u8>>::empty());
        }
        while i < addresses.len()
            invariant
                self.wf(),
                i <= addresses@.len(),
                avs == addr_views(addresses@),
                forall|j: int| 0 <= j < i ==> self.has_addr(#[trigger] avs[j]),
                out@ == self.reassemble_spec(avs.take(i as int)),
            decreases addresses@.len() - i,
        {
            match self.fetch(&addresses[i]) {
                Ok(c) => {
                    proof {
                        let pieces = avs.take(i as int).map_values(|a: Seq<u8>| self.bytes_at(a));
                        pieces.lemma_flatten_push(self.bytes_at(avs[i as int]));
                        assert(avs.take(i as int + 1).map_values(|a: Seq<u8>| self.bytes_at(a))
                            =~= pieces.push(self.bytes_at(avs[i as int])));
                    }
                    let mut piece = c.0;
                    out.append(&mut piece);
                },
                Err(_) => {
                    proof {
                        assert(!self.has_addr(avs[i as int]));
                    }
                    return Err(FileError::NotFound);
                },
            }
            i = i + 1;
        }
        proof {
            assert(avs.take(avs.len() as int) =~= avs);
        }
        Ok(out)
    }

    /// Splits `bytes` into chunks of at most `chunk_size` bytes, stores each
    /// chunk, and returns the addresses in split order. On success the
    /// returned addresses reassemble, against the updated store, to exactly
    /// `bytes`; the list is empty exactly when `bytes` is. Succeeds exactly
    /// when the pieces fit: each one already stored under its digest with
    /// the same bytes, or new with room for one more entry.
    pub fn store_file(&mut self, bytes: &Vec<u8>, chunk_size: usize) -> (r: Result<
        Vec<ChunkAddress>,
        FileError,
    >)
        requires
            old(self).wf(),
            chunk_size >= 1,
        ensures
            final(self).wf(),
            final(self).capacity == old(self).capacity,
            forall|b: Seq<u8>| old(self).has_addr(b) ==> final(self).has_addr(b)
                && final(self).bytes_at(b) == old(self).bytes_at(b),
            r matches Ok(addrs) ==> addrs@.len() == chunks_of(bytes@, chunk_size as int).len()
                && (forall|i: int| 0 <= i < addrs@.len() ==> #[trigger] addr_views(addrs@)[i]
                    == sha256_of(chunks_of(bytes@, chunk_size as int)[i]))
                && final(self).all_present(addr_views(addrs@))
                && final(self).reassemble_spec(addr_views(addrs@)) == bytes@
                && (addrs@.len() == 0 <==> bytes@.len() == 0),
            r is Err ==> r == Err::<Vec<ChunkAddress>, FileError>(FileError::Storage),
            r is Ok <==> pieces_fit(
                old(self).as_map(),
                old(self).addrs@.len() as int,
                old(self).capacity as int,
                chunks_of(bytes@, chunk_size as int),
            ),
    {
        let ghost k = chunk_size as int;
        let ghost pvs = chunks_of(bytes@, k);
        let pieces = split(bytes, chunk_size);
        let mut addrs: Vec<ChunkAddress> = Vec::new();
        let mut i: usize = 0;
        proof {
            assert(pvs.skip(0) =~= pvs);
        }
        while i < pieces.len()
            invariant
                self.wf(),
                self.capacity == old(self).capacity,
                pvs == chunks_of(bytes@, k),
                k == chunk_size as int,
                pieces@.map_values(|c: FileChunk| c@) == pvs,
                i <= pieces@.len(),
                addrs@.len() == i,
                forall|b: Seq<u8>| old(self).has_addr(b) ==> self.has_addr(b) && self.bytes_at(b)
                    == old(self).bytes_at(b),
                forall|j: int| 0 <= j < i ==> #[trigger] addr_views(addrs@)[j] == sha256_of(pvs[j]),
                forall|j: int| 0 <= j < i ==> self.has_addr(#[trigger] addr_views(addrs@)[j])
                    && self.bytes_at(addr_views(addrs@)[j]) == pvs[j],
                pieces_fit(
                    old(self).as_map(),
                    old(self).addrs@.len() as int,
                    old(self).capacity as int,
                    pvs,
                ) <==> pieces_fit(
                    self.as_map(),
                    self.addrs@.len() as int,
                    self.capacity as int,
                    pvs.skip(i as int),
                ),
            decreases pieces@.len() - i,
        {
            let ghost pre = *self;
            let ghost prior = addrs@;
            match self.store(pieces[i].duplicate()) {
                Ok(a) => {
                    proof {
                        assert(pieces@[i as int]@ == pvs[i as int]);
                        assert(a@ == sha256_of(pvs[i as int]));
                        assert(addr_views(prior.push(a)) =~= addr_views(prior).push(a@));
                        let p = pvs[i as int];
                        let d = sha256_of(p);
                        let rest0 = pvs.skip(i as int);
                        assert(rest0[0] == p);
                        assert(rest0.skip(1) =~= pvs.skip(i as int + 1));
                        if pre.has_addr(d) {
                            assert(pre.bytes_at(d) == p);
                            assert(pre.as_map().contains_key(d));
                            assert(self.as_map() =~= pre.as_map());
                            assert(self.addrs@.len() == pre.addrs@.len());
                        } else {
                            assert(!pre.as_map().contains_key(d));
                            assert(pre.addrs@.len() < pre.capacity);
                            assert(self.as_map() == pre.as_map().insert(d, p));
                            assert(self.addrs@.len() == pre.addrs@.len() + 1);
                        }
                        assert(pieces_fit(
                            pre.as_map(),
                            pre.addrs@.len() as int,
                            pre.capacity as int,
                            rest0,
                        ) <==> pieces_fit(
                            self.as_map(),
                            self.addrs@.len() as int,
                            self.capacity as int,
                            pvs.skip(i as int + 1),
                        ));
                    }
                    addrs.push(a);
                },
                Err(_) => {
                    proof {
                        let p = pvs[i as int];
                        let d = sha256_of(p);
                        let rest0 = pvs.skip(i as int);
                        assert(rest0[0] == p);
                        if self.as_map().contains_key(d) {
                            assert(self.bytes_at(d) != p);
                        } else {
                            assert(!(self.addrs@.len() < self.capacity));
                        }
                        assert(!pieces_fit(
                            self.as_map(),
                            self.addrs@.len() as int,
                            self.capacity as int,
                            rest0,
                        ));
                    }
                    return Err(FileError::Storage);
                },
            }
            proof {
                assert forall|j: int| 0 <= j < i + 1 implies self.has_addr(
                    #[trigger] addr_views(addrs@)[j],
                ) && self.bytes_at(addr_views(addrs@)[j]) == pvs[j] by {
                    if j < i {
                        assert(addr_views(addrs@)[j] == addr_views(prior)[j]);
                        assert(pre.has_addr(addr_views(prior)[j]));
                    }
                }
            }
            i = i + 1;
        }
        proof {
            lemma_chunks_of_sizes(bytes@, k);
            lemma_chunks_of_flatten(bytes@, k);
            let avs = addr_views(addrs@);
            assert(avs.map_values(|a: Seq<u8>| self.bytes_at(a)) =~= pvs);
            assert(pvs.skip(pvs.len() as int) =~= Seq::<Seq<u8>>::empty());
        }
        Ok(addrs)
    }
}

/// Replaying the same two addresses in the other order yields other bytes:
/// for stored chunks of equal length but different content, the two orders
/// reassemble to different buffers. Addresses must be replayed in their
/// original order.
pub proof fn lemma_reassemble_order_sensitive(s: ChunkStore, a1: Seq<u8>, a2: Seq<u8>)
    requires
        s.wf(),
        s.has_addr(a1),
        s.has_addr(a2),
        s.bytes_at(a1).len() == s.bytes_at(a2).len(),
        s.bytes_at(a1) != s.bytes_at(a2),
    ensures
        s.reassemble_spec(seq![a1, a2]) != s.reassemble_spec(seq![a2, a1]),
{
    let b1 = s.bytes_at(a1);
    let b2 = s.bytes_at(a2);
    assert(seq![a1, a2].map_values(|a: Seq<u8>| s.bytes_at(a)) =~= seq![b1, b2]);
    assert(seq![a2, a1].map_values(|a: Seq<u8>| s.bytes_at(a)) =~= seq![b2, b1]);
    assert(seq![b1, b2].drop_first() =~= seq![b2]);
    seq![b2].lemma_flatten_one_element();
    assert(seq![b1, b2].flatten() == b1 + b2);
    assert(seq![b2, b1].drop_first() =~= seq![b1]);
    seq![b1].lemma_flatten_one_element();
    assert(seq![b2, b1].flatten() == b2 + b1);
    if !(exists|j: int| 0 <= j < b1.len() && b1[j] != b2[j]) {
        assert(b1 =~= b2);
    }
    let j = choose|j: int| 0 <= j < b1.len() && b1[j] != b2[j];
    assert((b1 + b2)[j] == b1[j]);
    assert((b2 + b1)[j] == b2[j]);
}

} // verus!

