//! Receiving snapshots from a leader.

use vstd::prelude::*;

use crate::flight_client::Status;
use crate::text::concat;
use crate::text::same_text;

verus! {

/// The code of a request that is not valid.
pub const INVALID_ARGUMENT: u32 = 3;

/// The code of an error of the server.
pub const INTERNAL: u32 = 13;

/// A place in a snapshot.
#[derive(Debug)]
pub struct SnapshotSegmentId {
    pub id: String,
    pub offset: u64,
}

/// A chunk is not the one that was expected.
#[derive(Debug)]
pub struct SnapshotMismatch {
    pub expect: SnapshotSegmentId,
    pub got: SnapshotSegmentId,
}

/// What happened to the file that a snapshot is kept in.
#[derive(Clone, Copy, Debug, PartialEq, Eq, Structural)]
pub enum SnapshotVerb {
    Write,
    Read,
}

#[derive(Debug)]
pub enum InstallError {
    Mismatch(SnapshotMismatch),
    /// A file could not be made, written or closed, and why.
    Storage { verb: SnapshotVerb, snapshot_id: String, message: String },
}

/// A piece of a snapshot.
#[derive(Debug)]
pub struct SnapshotChunk {
    pub offset: u64,
    pub data: Vec<u8>,
    pub done: bool,
}

/// A piece of a snapshot as it was sent, with what accompanies it.
#[derive(Debug)]
pub struct SnapshotChunkRequest {
    pub rpc_meta: String,
    pub chunk: Option<SnapshotChunk>,
}

#[derive(Debug)]
pub struct InstallSnapshotRequest {
    pub snapshot_id: String,
    pub offset: u64,
    pub data: Vec<u8>,
    pub done: bool,
}

/// That a chunk does not start where it must.
pub open spec fn is_mismatch<T>(r: Result<T, InstallError>, req: InstallSnapshotRequest, expected: u64) -> bool {
    r matches Err(InstallError::Mismatch(m)) && m.expect.id@ == req.snapshot_id@ && m.expect.offset == expected
        && m.got.id@ == req.snapshot_id@ && m.got.offset == req.offset
}

pub open spec fn is_storage_error<T>(r: Result<T, InstallError>, id: Seq<char>, message: Seq<char>) -> bool {
    r matches Err(InstallError::Storage { verb, snapshot_id, message: m }) && verb == SnapshotVerb::Write
        && snapshot_id@ == id && m@ == message
}

/// A snapshot that is being received.
pub struct ReceiverV1 {
    /// The offset of the last byte written to the snapshot.
    offset: u64,
    /// The ID of the snapshot being written.
    snapshot_id: String,
    temp_path: String,
    /// All that was written to the snapshot.
    written: Ghost<Seq<u8>>,
}

impl ReceiverV1 {
    pub closed spec fn id(&self) -> Seq<char> {
        self.snapshot_id@
    }

    pub closed spec fn path(&self) -> Seq<char> {
        self.temp_path@
    }

    pub closed spec fn position(&self) -> u64 {
        self.offset
    }

    /// All that was written to the snapshot.
    pub closed spec fn content(&self) -> Seq<u8> {
        self.written@
    }

    pub open spec fn wf(&self) -> bool {
        self.position() == self.content().len()
    }

    pub fn new(snapshot_id: String, temp_path: String) -> (r: ReceiverV1)
        ensures
            r.wf(),
            r.id() == snapshot_id@,
            r.path() == temp_path@,
            r.content() == Seq::<u8>::empty(),
    {
        ReceiverV1 { offset: 0, snapshot_id, temp_path, written: Ghost(Seq::empty()) }
    }

    /// Whether a chunk goes on where the snapshot stands.
    fn check(&self, req: &InstallSnapshotRequest) -> (r: Result<(), InstallError>)
        ensures
            r is Ok <==> req.offset == self.position(),
            r is Err ==> is_mismatch(r, *req, self.position()),
    {
        if req.offset != self.offset {
            return Err(mismatch(req, self.offset));
        }
        Ok(())
    }

    /// Receive a chunk of snapshot data, which was written or could not be. Tells whether it was
    /// the last.
    pub fn receive(&mut self, req: &InstallSnapshotRequest, written: Result<(), String>) -> (r: Result<
        bool,
        InstallError,
    >)
        requires
            old(self).wf(),
            req.offset == old(self).position() ==> old(self).position() + req.data@.len() <= u64::MAX,
        ensures
            final(self).wf(),
            final(self).id() == old(self).id(),
            final(self).path() == old(self).path(),
            if req.offset != old(self).position() {
                is_mismatch(r, *req, old(self).position()) && *final(self) == *old(self)
            } else {
                match written {
                    Ok(()) => r == Ok::<bool, InstallError>(req.done) && final(self).content() == old(self).content()
                        + req.data@,
                    Err(message) => is_storage_error(r, req.snapshot_id@, message@) && *final(self) == *old(self),
                }
            },
    {
        match self.check(req) {
            Err(e) => return Err(e),
            Ok(()) => {},
        }
        match written {
            Err(message) => Err(
                InstallError::Storage {
                    verb: SnapshotVerb::Write,
                    snapshot_id: req.snapshot_id.clone(),
                    message,
                },
            ),
            Ok(()) => {
                // Update offset.
                self.offset = self.offset + req.data.len() as u64;
                self.written = Ghost(self.written@ + req.data@);
                Ok(req.done)
            },
        }
    }

    /// The file that the snapshot is in, once it was flushed or could not be.
    pub fn into_file(self, flushed: Result<(), String>) -> (r: Result<String, String>)
        ensures
            match flushed {
                Ok(()) => r matches Ok(path) && path@ == self.path(),
                Err(e) => r == Err::<String, String>(e),
            },
    {
        match flushed {
            Ok(()) => Ok(self.temp_path),
            Err(e) => Err(e),
        }
    }
}

fn mismatch(req: &InstallSnapshotRequest, expected: u64) -> (r: InstallError)
    ensures
        is_mismatch(Err::<(), InstallError>(r), *req, expected),
{
    InstallError::Mismatch(
        SnapshotMismatch {
            expect: SnapshotSegmentId { id: req.snapshot_id.clone(), offset: expected },
            got: SnapshotSegmentId { id: req.snapshot_id.clone(), offset: req.offset },
        },
    )
}

/// What is to be done with a chunk.
#[derive(Clone, Copy, Debug, PartialEq, Eq, Structural)]
pub enum ChunkAction {
    /// Make a file for the snapshot, then write the chunk to it.
    NewTempFile,
    /// Write the chunk.
    Write,
}

/// The snapshot that is being received is the one of a request.
pub open spec fn continues(receiver: Option<ReceiverV1>, req: InstallSnapshotRequest) -> bool {
    receiver matches Some(r) && r.id() == req.snapshot_id@
}

pub open spec fn receiver_ok(receiver: Option<ReceiverV1>) -> bool {
    receiver matches Some(r) ==> r.wf()
}

/// What is to be done with a chunk: it must go on where its snapshot stands, or start a snapshot.
pub fn receive_snapshot(receiver: &Option<ReceiverV1>, req: &InstallSnapshotRequest) -> (r: Result<
    ChunkAction,
    InstallError,
>)
    ensures
        if continues(*receiver, *req) {
            let position = receiver->Some_0.position();
            &&& req.offset == position ==> r == Ok::<ChunkAction, InstallError>(ChunkAction::Write)
            &&& req.offset != position ==> is_mismatch(r, *req, position)
        } else {
            &&& req.offset == 0 ==> r == Ok::<ChunkAction, InstallError>(ChunkAction::NewTempFile)
            &&& req.offset != 0 ==> is_mismatch(r, *req, 0)
        },
{
    let known = match receiver {
        Some(recv) => same_text(recv.snapshot_id.as_str(), req.snapshot_id.as_str()),
        None => false,
    };
    if !known {
        if req.offset != 0 {
            return Err(mismatch(req, 0));
        }
        // Changed to another stream. re-init snapshot state.
        return Ok(ChunkAction::NewTempFile);
    }
    match receiver {
        Some(recv) => match recv.check(req) {
            Err(e) => Err(e),
            Ok(()) => Ok(ChunkAction::Write),
        },
        None => Ok(ChunkAction::NewTempFile),
    }
}

/// A file for the snapshot of a request was made, or could not be.
pub fn temp_file_made(receiver: &mut Option<ReceiverV1>, req: &InstallSnapshotRequest, made: Result<String, String>) -> (r:
    Result<(), InstallError>)
    ensures
        match made {
            Ok(path) => r is Ok && (*final(receiver) matches Some(recv) && recv.wf() && recv.id() == req.snapshot_id@
                && recv.path() == path@ && recv.content() == Seq::<u8>::empty()),
            Err(message) => is_storage_error(r, req.snapshot_id@, message@) && *final(receiver) == *old(receiver),
        },
{
    match made {
        Ok(path) => {
            *receiver = Some(ReceiverV1::new(req.snapshot_id.clone(), path));
            Ok(())
        },
        Err(message) => Err(
            InstallError::Storage { verb: SnapshotVerb::Write, snapshot_id: req.snapshot_id.clone(), message },
        ),
    }
}

/// A chunk was written, or could not be. With the last chunk the snapshot is handed out to be
/// closed.
pub fn chunk_written(
    receiver: &mut Option<ReceiverV1>,
    req: &InstallSnapshotRequest,
    written: Result<(), String>,
) -> (r: Result<Option<ReceiverV1>, InstallError>)
    requires
        receiver_ok(*old(receiver)),
        *old(receiver) matches Some(recv) && recv.position() == req.offset && recv.position() + req.data@.len()
            <= u64::MAX,
    ensures
        receiver_ok(*final(receiver)),
        match written {
            Err(message) => is_storage_error(r, req.snapshot_id@, message@) && *final(receiver) == *old(receiver),
            Ok(()) => {
                let recv = old(receiver)->Some_0;
                if req.done {
                    &&& *final(receiver) is None
                    &&& r matches Ok(Some(done)) && done.id() == recv.id() && done.path() == recv.path()
                        && done.content() == recv.content() + req.data@
                } else {
                    &&& r matches Ok(None)
                    &&& *final(receiver) matches Some(now) && now.id() == recv.id() && now.path() == recv.path()
                        && now.content() == recv.content() + req.data@
                }
            },
        },
{
    let mut current: Option<ReceiverV1> = None;
    std::mem::swap(receiver, &mut current);
    match current {
        Some(recv) => {
            let mut recv = recv;
            match recv.receive(req, written) {
                Ok(done) => if done {
                    Ok(Some(recv))
                } else {
                    *receiver = Some(recv);
                    Ok(None)
                },
                Err(e) => {
                    *receiver = Some(recv);
                    Err(e)
                },
            }
        },
        None => Ok(None),
    }
}

/// The snapshot that was handed out was closed, or could not be.
pub fn snapshot_closed(snapshot_id: &String, done: ReceiverV1, flushed: Result<(), String>) -> (r: Result<
    String,
    InstallError,
>)
    ensures
        match flushed {
            Ok(()) => r matches Ok(path) && path@ == done.path(),
            Err(message) => is_storage_error(r, snapshot_id@, message@),
        },
{
    match done.into_file(flushed) {
        Ok(path) => Ok(path),
        Err(message) => Err(
            InstallError::Storage { verb: SnapshotVerb::Write, snapshot_id: snapshot_id.clone(), message },
        ),
    }
}

/// What is done after a chunk was received; `V` is a vote.
#[derive(Debug)]
pub enum ChunkReply<V> {
    /// Answer with the vote of this node.
    Vote(V),
    /// The snapshot is complete: upgrade the file, install it, and answer with what comes of it.
    Install(String),
}

/// Receive a chunk based snapshot from the leader: what is done after a chunk was received.
pub fn receive_chunked_snapshot<V>(my_vote: V, finished_snapshot: Option<String>) -> (r: ChunkReply<V>)
    ensures
        match finished_snapshot {
            Some(temp_path) => r == ChunkReply::<V>::Install(temp_path),
            None => r == ChunkReply::Vote(my_vote),
        },
{
    match finished_snapshot {
        Some(temp_path) => ChunkReply::Install(temp_path),
        None => ChunkReply::Vote(my_vote),
    }
}

/// The chunk of a request, and what accompanies it.
pub fn do_install_snapshot_v1(request: SnapshotChunkRequest) -> (r: Result<(String, SnapshotChunk), Status>)
    ensures
        match request.chunk {
            Some(chunk) => r == Ok::<(String, SnapshotChunk), Status>((request.rpc_meta, chunk)),
            None => r matches Err(status) && status.code == INVALID_ARGUMENT && status.message@
                == "SnapshotChunkRequest.chunk is None"@,
        },
{
    match request.chunk {
        Some(chunk) => Ok((request.rpc_meta, chunk)),
        None => Err(
            Status { code: INVALID_ARGUMENT, message: "SnapshotChunkRequest.chunk is None".to_owned() },
        ),
    }
}

/// The request to install a chunk of a snapshot.
pub fn install_request(snapshot_id: String, chunk: SnapshotChunk) -> (r: InstallSnapshotRequest)
    ensures
        r == (InstallSnapshotRequest { snapshot_id, offset: chunk.offset, data: chunk.data, done: chunk.done }),
{
    InstallSnapshotRequest { snapshot_id, offset: chunk.offset, data: chunk.data, done: chunk.done }
}

/// What came of a stream of chunks; `F` is a snapshot that is complete.
#[derive(Debug)]
pub enum BinaryEvent<F> {
    /// A chunk was received, and with it the snapshot where it was the last.
    Received(Option<F>),
    /// There is no chunk more; what was received so far, in words.
    Closed(String),
    Failed(Status),
}

/// What is done with a stream of chunks.
#[derive(Debug)]
pub enum BinaryAction<F> {
    Next,
    Return(Result<F, Status>),
}

/// Receive a single file snapshot in binary chunks.
pub fn receive_binary_snapshot<F>(event: BinaryEvent<F>) -> (r: BinaryAction<F>)
    ensures
        match event {
            BinaryEvent::Received(None) => r == BinaryAction::<F>::Next,
            BinaryEvent::Received(Some(finished)) => r == BinaryAction::Return(Ok::<F, Status>(finished)),
            BinaryEvent::Closed(stat) => r matches BinaryAction::Return(Err(status)) && status.code
                == INVALID_ARGUMENT && status.message@ == "snapshot stream is closed without finishing: "@ + stat@,
            BinaryEvent::Failed(status) => r == BinaryAction::Return(Err::<F, Status>(status)),
        },
{
    match event {
        BinaryEvent::Received(None) => BinaryAction::Next,
        BinaryEvent::Received(Some(finished)) => BinaryAction::Return(Ok(finished)),
        BinaryEvent::Closed(stat) => {
            let message = concat("snapshot stream is closed without finishing: ", stat.as_str(), "", "");
            proof {
                reveal_strlit("");
                assert(message@ =~= "snapshot stream is closed without finishing: "@ + stat@);
            }
            BinaryAction::Return(Err(Status { code: INVALID_ARGUMENT, message }))
        },
        BinaryEvent::Failed(status) => BinaryAction::Return(Err(status)),
    }
}

/// The address that a request comes from, in words.
pub fn remote_addr(addr: Option<String>) -> (r: String)
    ensures
        match addr {
            Some(a) => r == a,
            None => r@ == "unknown address"@,
        },
{
    match addr {
        Some(a) => a,
        None => "unknown address".to_owned(),
    }
}

/// The status of an error of a file, which may be due to what was asked for.
pub fn io_err_to_status(invalid_input: bool, message: String) -> (r: Status)
    ensures
        r.message == message,
        r.code == (if invalid_input {
            INVALID_ARGUMENT
        } else {
            INTERNAL
        }),
{
    if invalid_input {
        Status { code: INVALID_ARGUMENT, message }
    } else {
        Status { code: INTERNAL, message }
    }
}

/// What is kept of chunks that were received one after the other, all of one snapshot.
pub open spec fn assembled(chunks: Seq<InstallSnapshotRequest>) -> Seq<u8>
    decreases chunks.len(),
{
    if chunks.len() == 0 {
        Seq::empty()
    } else {
        assembled(chunks.drop_last()) + chunks.last().data@
    }
}

/// Each chunk starts where those before it end.
pub open spec fn contiguous(chunks: Seq<InstallSnapshotRequest>) -> bool {
    forall|i: int| 0 <= i < chunks.len() ==> (#[trigger] chunks[i]).offset == assembled(chunks.take(i)).len()
}

/// A chunk that is accepted leaves no gap: if what a receiver holds was put together without gaps,
/// so is what it holds then.
pub proof fn accepted_chunks_are_contiguous(chunks: Seq<InstallSnapshotRequest>, recv: ReceiverV1, req: InstallSnapshotRequest)
    requires
        recv.wf(),
        contiguous(chunks),
        recv.content() == assembled(chunks),
        req.offset == recv.position(),
    ensures
        contiguous(chunks.push(req)),
        recv.content() + req.data@ == assembled(chunks.push(req)),
{
    let more = chunks.push(req);
    assert(more.drop_last() =~= chunks);
    assert forall|i: int| 0 <= i < more.len() implies (#[trigger] more[i]).offset == assembled(more.take(i)).len() by {
        if i < chunks.len() {
            assert(more.take(i) =~= chunks.take(i));
            assert(more[i] == chunks[i]);
        } else {
            assert(more.take(i) =~= chunks);
        }
    }
}

/// A chunk goes on with a snapshot exactly where one is being received and has its id.
pub proof fn chunks_go_on_with_their_own_snapshot(receiver: Option<ReceiverV1>, req: InstallSnapshotRequest)
    ensures
        receiver is None ==> !continues(receiver, req),
        receiver matches Some(r) ==> (continues(receiver, req) <==> r.id() == req.snapshot_id@),
{
}

/// A refusal names the place where the snapshot goes on, and the place of the chunk that came.
pub proof fn a_refusal_names_both_places<T>(r: Result<T, InstallError>, req: InstallSnapshotRequest, expected: u64)
    requires
        is_mismatch(r, req, expected),
    ensures
        r matches Err(InstallError::Mismatch(m)) && m.expect.offset == expected && m.got.offset == req.offset
            && m.expect.id@ == req.snapshot_id@ && m.got.id@ == req.snapshot_id@,
{
}

/// The bytes of a snapshot are those of its chunks, each where the chunk says.
pub proof fn every_chunk_stands_where_it_says(chunks: Seq<InstallSnapshotRequest>, c: int, i: int)
    requires
        contiguous(chunks),
        0 <= c < chunks.len(),
        0 <= i < chunks[c].data@.len(),
    ensures
        chunks[c].offset + i < assembled(chunks).len(),
        assembled(chunks)[chunks[c].offset + i] == chunks[c].data@[i],
    decreases chunks.len(),
{
    let before = chunks.drop_last();
    let n = chunks.len() - 1;
    assert(chunks.take(n) =~= before);
    if c < n {
        assert forall|k: int| 0 <= k < before.len() implies (#[trigger] before[k]).offset == assembled(
            before.take(k),
        ).len() by {
            assert(chunks[k].offset == assembled(chunks.take(k)).len());
            assert(before.take(k) =~= chunks.take(k));
        }
        every_chunk_stands_where_it_says(before, c, i);
    } else {
        assert(chunks[n].offset == assembled(chunks.take(n)).len());
    }
}

}
