//! The decisions of a push: how a bundle is cut into chunks, what each
//! chunk request says, and the state machine that posts the commit, sends
//! each unit of data with retries and backoff, signals completion and waits
//! for the remote's verdict. The requests themselves are made by the caller,
//! which reports each outcome back as an event.

use vstd::prelude::*;
use vstd::string::StringExecFns;
use vstd::string::StringSliceAdditionalSpecFns;
use crate::error::OxenError;
use crate::hashing::{digest_of, hash_buffer, percent_encoded, url_encode};
use crate::text::{decimal, decimal_of};

verus! {

/// Where one chunk stands in an upload.
#[derive(Debug, Clone, Copy, PartialEq, Eq, Structural)]
pub struct ChunkParams {
    pub chunk_num: usize,
    pub total_chunks: usize,
    pub total_size: usize,
}

/// The knobs of a transfer: how often a unit is attempted before the push
/// gives up, and the size above which a bundle is cut into chunks of that
/// size.
#[derive(Debug, Clone, Copy, PartialEq, Eq, Structural)]
pub struct TransferConfig {
    pub max_attempts: u32,
    pub chunk_size: usize,
}

/// Attempts per unit of transfer in the default configuration.
pub const NUM_HTTP_RETRIES: u32 = 5;

/// Chunk size of the default configuration, in bytes.
pub const AVG_CHUNK_SIZE: usize = 4194304;

impl TransferConfig {
    /// The configuration that pushes use unless told otherwise.
    pub fn standard() -> (r: TransferConfig)
        ensures
            r.max_attempts == NUM_HTTP_RETRIES,
            r.chunk_size == AVG_CHUNK_SIZE,
    {
        TransferConfig { max_attempts: NUM_HTTP_RETRIES, chunk_size: AVG_CHUNK_SIZE }
    }
}

/// The number of chunks of `size` that `len` bytes take.
pub open spec fn chunk_count(len: nat, size: nat) -> nat
    recommends
        size > 0,
{
    ((len + size - 1) / size as int) as nat
}

/// Chunk `i` of a buffer: bytes `i * size` up to `(i + 1) * size`, or to
/// the end.
pub open spec fn chunk_at(buf: Seq<u8>, size: nat, i: nat) -> Seq<u8> {
    let start = i * size;
    let end = if (i + 1) * size <= buf.len() { (i + 1) * size } else { buf.len() };
    buf.subrange(start as int, end as int)
}

/// The concatenation of a sequence of chunks.
pub open spec fn concat_chunks(cs: Seq<Seq<u8>>) -> Seq<u8>
    decreases cs.len(),
{
    if cs.len() == 0 {
        Seq::empty()
    } else {
        concat_chunks(cs.drop_last()) + cs.last()
    }
}

proof fn lemma_chunk_count(len: nat, size: nat, k: nat)
    requires
        size > 0,
        k * size >= len,
        k == 0 || (k - 1) * size < len,
    ensures
        k == chunk_count(len, size),
{
    if k == 0 {
        assert(len == 0);
        assert((size - 1) / size as int == 0) by (nonlinear_arith)
            requires size > 0;
    } else {
        let q = (len + size - 1) / size as int;
        assert(q == k) by (nonlinear_arith)
            requires
                size > 0,
                k * size >= len,
                (k - 1) * size < len,
                q == (len + size - 1) / size as int,
                k > 0;
    }
}

/// Cuts a buffer into chunks of `chunk_size` bytes, the last one possibly
/// shorter. Their number is the length divided by the chunk size, rounded
/// up, and together, in order, they are the buffer.
pub fn chunk_buffer(buffer: &[u8], chunk_size: usize) -> (r: Vec<Vec<u8>>)
    requires
        chunk_size > 0,
    ensures
        r@.len() == chunk_count(buffer@.len(), chunk_size as nat),
        forall|i: int| 0 <= i < r@.len() ==> (#[trigger] r@[i])@ == chunk_at(buffer@, chunk_size as nat, i as nat),
        concat_chunks(r@.map_values(|c: Vec<u8>| c@)) == buffer@,
{
    let len = buffer.len();
    let ghost cs = chunk_size as nat;
    let mut out: Vec<Vec<u8>> = Vec::new();
    let mut start: usize = 0;
    assert(out@.len() * cs == 0) by (nonlinear_arith)
        requires out@.len() == 0;
    assert(concat_chunks(out@.map_values(|c: Vec<u8>| c@)) =~= buffer@.subrange(0, 0));
    while start < len
        invariant
            len == buffer@.len(),
            cs == chunk_size as nat,
            chunk_size > 0,
            start <= len,
            start as nat == out@.len() * cs,
            (out@.len() as int - 1) * cs < len || out@.len() == 0,
            forall|i: int| 0 <= i < out@.len() ==> (#[trigger] out@[i])@ == chunk_at(buffer@, cs, i as nat),
            concat_chunks(out@.map_values(|c: Vec<u8>| c@)) == buffer@.subrange(0, start as int),
        decreases len - start,
    {
        let end = if len - start > chunk_size { start + chunk_size } else { len };
        let mut chunk: Vec<u8> = Vec::new();
        let mut j: usize = start;
        while j < end
            invariant
                start <= j <= end <= buffer@.len(),
                chunk@ == buffer@.subrange(start as int, j as int),
            decreases end - j,
        {
            chunk.push(buffer[j]);
            j = j + 1;
            assert(chunk@ =~= buffer@.subrange(start as int, j as int));
        }
        let ghost k = out@.len();
        let ghost prev = out@.map_values(|c: Vec<u8>| c@);
        proof {
            assert((k + 1) * cs == k * cs + cs) by (nonlinear_arith);
            if len - start > chunk_size {
                assert(end as nat == (k + 1) * cs);
            } else {
                assert(end == len);
                assert((k + 1) * cs >= len);
            }
            assert(chunk@ == chunk_at(buffer@, cs, k));
        }
        out.push(chunk);
        proof {
            assert(out@.map_values(|c: Vec<u8>| c@).drop_last() =~= prev);
            assert(buffer@.subrange(0, end as int) =~= buffer@.subrange(0, start as int) + buffer@.subrange(start as int, end as int));
        }
        if end < len {
            start = end;
        } else {
            proof {
                assert(out@.len() * cs >= len) by (nonlinear_arith)
                    requires out@.len() == k + 1, (k + 1) * cs == k * cs + cs, start as nat == k * cs,
                        end == len, len - start <= cs;
                lemma_chunk_count(len as nat, cs, out@.len());
                assert(buffer@.subrange(0, end as int) =~= buffer@);
            }
            return out;
        }
    }
    proof {
        assert(out@.len() * cs >= len);
        lemma_chunk_count(len as nat, cs, out@.len());
        assert(buffer@.subrange(0, start as int) =~= buffer@);
    }
    out
}

/// The path and query of the request that uploads one chunk.
pub open spec fn chunk_uri_of(
    commit_id: Seq<char>,
    params: ChunkParams,
    hash: Seq<char>,
    is_compressed: bool,
    filename: Option<Seq<u8>>,
) -> Seq<char> {
    "/commits/"@ + commit_id + "/upload_chunk?chunk_num="@ + decimal_of(params.chunk_num as nat)
        + "&total_size="@ + decimal_of(params.total_size as nat) + "&hash="@ + hash
        + "&total_chunks="@ + decimal_of(params.total_chunks as nat) + "&is_compressed="@
        + (if is_compressed { "true"@ } else { "false"@ })
        + (if is_compressed { Seq::<char>::empty() } else {
            "&filename="@ + percent_encoded(filename->Some_0)
        })
}

/// The path and query of the request that uploads one chunk. A chunk that
/// is not compressed names the file it belongs to.
pub fn upload_chunk_uri(
    commit_id: &str,
    params: &ChunkParams,
    hash: &str,
    is_compressed: bool,
    filename: &Option<String>,
) -> (r: String)
    requires
        is_compressed || filename.is_some(),
    ensures
        r@ == chunk_uri_of(commit_id@, *params, hash@, is_compressed,
            match filename { Some(f) => Some(vstd::utf8::encode_utf8(f@)), None => None }),
{
    let mut uri = String::from_str("/commits/");
    uri.append(commit_id);
    uri.append("/upload_chunk?chunk_num=");
    uri.append(decimal(params.chunk_num).as_str());
    uri.append("&total_size=");
    uri.append(decimal(params.total_size).as_str());
    uri.append("&hash=");
    uri.append(hash);
    uri.append("&total_chunks=");
    uri.append(decimal(params.total_chunks).as_str());
    uri.append("&is_compressed=");
    if is_compressed {
        uri.append("true");
    } else {
        uri.append("false");
        match filename {
            Some(f) => {
                uri.append("&filename=");
                uri.append(url_encode(f.as_str()).as_str());
            },
            None => {},
        }
    }
    proof {
        let fb = match filename { Some(f) => Some(vstd::utf8::encode_utf8(f@)), None => None::<Seq<u8>> };
        assert(uri@ =~= chunk_uri_of(commit_id@, *params, hash@, is_compressed, fb));
    }
    uri
}

/// One chunk request: where it stands, the hash of the whole buffer, and
/// its bytes.
#[derive(Debug, Clone)]
pub struct ChunkUpload {
    pub params: ChunkParams,
    pub hash: String,
    pub data: Vec<u8>,
}

/// How a bundle travels: whole, in one request, or as chunk requests.
#[derive(Debug, Clone)]
pub enum UploadPlan {
    Single(Vec<u8>),
    Chunked(Vec<ChunkUpload>),
}

/// Decides how a bundle is sent. A bundle no larger than the chunk size goes
/// whole; a larger one is cut by `chunk_buffer`, and each chunk carries its
/// number, the number of chunks, the total size and the hash of the whole
/// buffer.
pub fn post_data_to_server(buffer: Vec<u8>, config: &TransferConfig) -> (r: UploadPlan)
    requires
        config.chunk_size > 0,
    ensures
        match r {
            UploadPlan::Single(b) => buffer@.len() <= config.chunk_size && b@ == buffer@,
            UploadPlan::Chunked(cs) => {
            &&& buffer@.len() > config.chunk_size
            &&& cs@.len() == chunk_count(buffer@.len(), config.chunk_size as nat)
            &&& concat_chunks(cs@.map_values(|c: ChunkUpload| c.data@)) == buffer@
            &&& forall|i: int| 0 <= i < cs@.len() ==> {
                &&& (#[trigger] cs@[i]).params == ChunkParams {
                    chunk_num: i as usize,
                    total_chunks: cs@.len() as usize,
                    total_size: buffer@.len() as usize,
                }
                &&& cs@[i].hash@ == digest_of(buffer@)
                &&& cs@[i].data@ == chunk_at(buffer@, config.chunk_size as nat, i as nat)
            }
            },
        },
{
    if buffer.len() <= config.chunk_size {
        return UploadPlan::Single(buffer);
    }
    let hash = hash_buffer(buffer.as_slice());
    let pieces = chunk_buffer(buffer.as_slice(), config.chunk_size);
    let total = pieces.len();
    let ghost pv = pieces@.map_values(|c: Vec<u8>| c@);
    let mut out: Vec<ChunkUpload> = Vec::new();
    let mut i: usize = 0;
    while i < total
        invariant
            total == pieces@.len(),
            pv == pieces@.map_values(|c: Vec<u8>| c@),
            i <= total,
            out@.len() == i,
            hash@ == digest_of(buffer@),
            forall|j: int| 0 <= j < i ==> {
                &&& (#[trigger] out@[j]).params == ChunkParams {
                    chunk_num: j as usize,
                    total_chunks: total,
                    total_size: buffer@.len() as usize,
                }
                &&& out@[j].hash@ == digest_of(buffer@)
                &&& out@[j].data@ == pv[j]
            },
        decreases total - i,
    {
        let mut data: Vec<u8> = Vec::new();
        let piece = &pieces[i];
        let mut j: usize = 0;
        while j < piece.len()
            invariant
                j <= piece@.len(),
                data@ == piece@.subrange(0, j as int),
            decreases piece@.len() - j,
        {
            data.push(piece[j]);
            j = j + 1;
            assert(data@ =~= piece@.subrange(0, j as int));
        }
        assert(piece@.subrange(0, j as int) =~= piece@);
        let params = ChunkParams { chunk_num: i, total_chunks: total, total_size: buffer.len() };
        out.push(ChunkUpload { params, hash: hash.clone(), data });
        i = i + 1;
    }
    assert(out@.map_values(|c: ChunkUpload| c.data@) =~= pv);
    UploadPlan::Chunked(out)
}

/// Where a push stands.
#[derive(Debug, Clone, Copy, PartialEq, Eq, Structural)]
pub enum PushPhase {
    Created,
    MetadataSent,
    DataUploading,
    DataUploaded,
    CompletionSignaled,
    RemoteProcessing,
    Synced,
    Invalid,
    Failed,
}

/// The outcome of the last request, as the caller reports it.
#[derive(Debug, Clone, Copy, PartialEq, Eq, Structural)]
pub enum PushEvent {
    MetadataPosted,
    UnitSent,
    UnitFailed,
    UnitMalformed,
    CompletionPosted,
    RequestFailed,
    StatusAbsent,
    StatusValid,
    StatusInvalid,
}

/// What the caller does next.
#[derive(Debug, Clone, Copy, PartialEq, Eq, Structural)]
pub enum PushAction {
    PostMetadata,
    SendUnit { unit: usize },
    RetryUnit { unit: usize, delay_secs: u64 },
    SignalComplete,
    PollStatus,
    Finished,
    Abort(OxenError),
    Nothing,
}

/// A push as mathematics.
pub ghost struct PushModel {
    pub phase: PushPhase,
    pub unit: nat,
    pub failures: nat,
    pub total_units: nat,
    pub max_attempts: nat,
}

/// Whether the data of the push is being sent.
pub open spec fn sending(p: PushPhase) -> bool {
    p == PushPhase::MetadataSent || p == PushPhase::DataUploading
}

/// Whether the push waits for the remote's verdict.
pub open spec fn awaiting_verdict(p: PushPhase) -> bool {
    p == PushPhase::CompletionSignaled || p == PushPhase::RemoteProcessing
}

/// One step of a push. Each unit of data is attempted up to `max_attempts`
/// times; after the n-th failure of a unit it is sent again after n * n
/// seconds, and when no attempt is left the push fails with `UploadFailed`.
/// A unit whose answer does not parse would fail the same way again, so it
/// is not retried: the push fails with `SerializationFailure`. Once the data
/// is in, completion is signalled and the status is polled
/// until the remote says whether the commit is valid; an absent status means
/// that the remote is still processing.
pub open spec fn push_next(m: PushModel, e: PushEvent) -> (PushModel, PushAction) {
    if m.phase == PushPhase::Created && e == PushEvent::MetadataPosted {
        (PushModel { phase: PushPhase::MetadataSent, unit: 0, failures: 0, ..m },
         PushAction::SendUnit { unit: 0 })
    } else if sending(m.phase) && e == PushEvent::UnitSent {
        if m.unit + 1 < m.total_units {
            (PushModel { phase: PushPhase::DataUploading, unit: m.unit + 1, failures: 0, ..m },
             PushAction::SendUnit { unit: (m.unit + 1) as usize })
        } else {
            (PushModel { phase: PushPhase::DataUploaded, failures: 0, ..m }, PushAction::SignalComplete)
        }
    } else if sending(m.phase) && e == PushEvent::UnitFailed {
        if m.failures + 1 < m.max_attempts {
            (PushModel { phase: PushPhase::DataUploading, failures: m.failures + 1, ..m },
             PushAction::RetryUnit {
                unit: m.unit as usize,
                delay_secs: ((m.failures + 1) * (m.failures + 1)) as u64,
            })
        } else {
            (PushModel { phase: PushPhase::Failed, failures: m.failures + 1, ..m },
             PushAction::Abort(OxenError::UploadFailed))
        }
    } else if sending(m.phase) && e == PushEvent::UnitMalformed {
        (PushModel { phase: PushPhase::Failed, ..m }, PushAction::Abort(OxenError::SerializationFailure))
    } else if m.phase == PushPhase::DataUploaded && e == PushEvent::CompletionPosted {
        (PushModel { phase: PushPhase::CompletionSignaled, ..m }, PushAction::PollStatus)
    } else if awaiting_verdict(m.phase) && e == PushEvent::StatusAbsent {
        (PushModel { phase: PushPhase::RemoteProcessing, ..m }, PushAction::PollStatus)
    } else if awaiting_verdict(m.phase) && e == PushEvent::StatusValid {
        (PushModel { phase: PushPhase::Synced, ..m }, PushAction::Finished)
    } else if awaiting_verdict(m.phase) && e == PushEvent::StatusInvalid {
        (PushModel { phase: PushPhase::Invalid, ..m }, PushAction::Finished)
    } else if (m.phase == PushPhase::Created || m.phase == PushPhase::DataUploaded
        || awaiting_verdict(m.phase)) && e == PushEvent::RequestFailed {
        (PushModel { phase: PushPhase::Failed, ..m }, PushAction::Abort(OxenError::TransportFailure))
    } else {
        (m, PushAction::Nothing)
    }
}

/// The state of one push.
pub struct PushSession {
    phase: PushPhase,
    unit: usize,
    failures: u32,
    total_units: usize,
    max_attempts: u32,
}

impl PushSession {
    pub closed spec fn model(&self) -> PushModel {
        PushModel {
            phase: self.phase,
            unit: self.unit as nat,
            failures: self.failures as nat,
            total_units: self.total_units as nat,
            max_attempts: self.max_attempts as nat,
        }
    }

    /// The unit being sent is one of the bundle's, and the failures of a
    /// unit stay below the attempt budget while it is being sent.
    pub open spec fn wf(&self) -> bool {
        let m = self.model();
        &&& m.total_units >= 1
        &&& m.max_attempts >= 1
        &&& m.unit < m.total_units
        &&& (sending(m.phase) ==> m.failures < m.max_attempts)
        &&& m.failures <= m.max_attempts
    }

    /// A push of `total_units` units of data (one for a bundle sent whole,
    /// else the number of chunks).
    pub fn new(total_units: usize, config: &TransferConfig) -> (r: PushSession)
        requires
            total_units >= 1,
            config.max_attempts >= 1,
        ensures
            r.wf(),
            r.model() == (PushModel {
                phase: PushPhase::Created,
                unit: 0,
                failures: 0,
                total_units: total_units as nat,
                max_attempts: config.max_attempts as nat,
            }),
    {
        PushSession { phase: PushPhase::Created, unit: 0, failures: 0, total_units, max_attempts: config.max_attempts }
    }

    /// The first thing a push does: post the commit record.
    pub fn start(&self) -> (r: PushAction)
        ensures
            self.model().phase == PushPhase::Created ==> r == PushAction::PostMetadata,
            self.model().phase != PushPhase::Created ==> r == PushAction::Nothing,
    {
        if self.phase == PushPhase::Created { PushAction::PostMetadata } else { PushAction::Nothing }
    }

    /// The phase of the push.
    pub fn phase(&self) -> (r: PushPhase)
        ensures
            r == self.model().phase,
    {
        self.phase
    }

    /// Takes the outcome of the last request and says what to do next.
    pub fn on_event(&mut self, e: PushEvent) -> (r: PushAction)
        requires
            old(self).wf(),
        ensures
            final(self).wf(),
            (final(self).model(), r) == push_next(old(self).model(), e),
    {
        let sending = self.phase == PushPhase::MetadataSent || self.phase == PushPhase::DataUploading;
        let awaiting = self.phase == PushPhase::CompletionSignaled || self.phase == PushPhase::RemoteProcessing;
        if self.phase == PushPhase::Created && e == PushEvent::MetadataPosted {
            self.phase = PushPhase::MetadataSent;
            self.unit = 0;
            self.failures = 0;
            PushAction::SendUnit { unit: 0 }
        } else if sending && e == PushEvent::UnitSent {
            if self.unit + 1 < self.total_units {
                self.phase = PushPhase::DataUploading;
                self.unit = self.unit + 1;
                self.failures = 0;
                PushAction::SendUnit { unit: self.unit }
            } else {
                self.phase = PushPhase::DataUploaded;
                self.failures = 0;
                PushAction::SignalComplete
            }
        } else if sending && e == PushEvent::UnitFailed {
            let n = self.failures + 1;
            if n < self.max_attempts {
                self.phase = PushPhase::DataUploading;
                self.failures = n;
                assert((n as int) * (n as int) <= 18446744073709551615int) by (nonlinear_arith)
                    requires 0 <= n as int <= 4294967295int;
                let d: u64 = (n as u64) * (n as u64);
                PushAction::RetryUnit { unit: self.unit, delay_secs: d }
            } else {
                self.phase = PushPhase::Failed;
                self.failures = n;
                PushAction::Abort(OxenError::UploadFailed)
            }
        } else if sending && e == PushEvent::UnitMalformed {
            self.phase = PushPhase::Failed;
            PushAction::Abort(OxenError::SerializationFailure)
        } else if self.phase == PushPhase::DataUploaded && e == PushEvent::CompletionPosted {
            self.phase = PushPhase::CompletionSignaled;
            PushAction::PollStatus
        } else if awaiting && e == PushEvent::StatusAbsent {
            self.phase = PushPhase::RemoteProcessing;
            PushAction::PollStatus
        } else if awaiting && e == PushEvent::StatusValid {
            self.phase = PushPhase::Synced;
            PushAction::Finished
        } else if awaiting && e == PushEvent::StatusInvalid {
            self.phase = PushPhase::Invalid;
            PushAction::Finished
        } else if (self.phase == PushPhase::Created || self.phase == PushPhase::DataUploaded || awaiting)
            && e == PushEvent::RequestFailed {
            self.phase = PushPhase::Failed;
            PushAction::Abort(OxenError::TransportFailure)
        } else {
            PushAction::Nothing
        }
    }
}

/// The state and last action after the unit being sent has failed `k`
/// times in a row.
pub open spec fn fail_repeatedly(m: PushModel, k: nat) -> (PushModel, PushAction)
    decreases k,
{
    if k == 0 {
        (m, PushAction::Nothing)
    } else {
        push_next(fail_repeatedly(m, (k - 1) as nat).0, PushEvent::UnitFailed)
    }
}

proof fn lemma_fail_repeatedly(m: PushModel, k: nat)
    requires
        sending(m.phase),
        m.failures == 0,
        1 <= k < m.max_attempts,
    ensures
        fail_repeatedly(m, k).0 == (PushModel { phase: PushPhase::DataUploading, failures: k, ..m }),
        fail_repeatedly(m, k).1 == (PushAction::RetryUnit { unit: m.unit as usize, delay_secs: (k * k) as u64 }),
    decreases k,
{
    reveal_with_fuel(fail_repeatedly, 2);
    if k > 1 {
        lemma_fail_repeatedly(m, (k - 1) as nat);
    }
}

/// A unit that keeps failing, whichever unit it is and whatever the units
/// before it did, is retried after 1, 4, 9, ... seconds until the attempt
/// budget is spent, and then the push fails with `UploadFailed`.
pub proof fn lemma_persistent_failure_aborts(m: PushModel)
    requires
        sending(m.phase),
        m.failures == 0,
        m.max_attempts >= 1,
    ensures
        forall|k: nat| 1 <= k < m.max_attempts ==> #[trigger] fail_repeatedly(m, k).1
            == (PushAction::RetryUnit { unit: m.unit as usize, delay_secs: (k * k) as u64 }),
        fail_repeatedly(m, m.max_attempts).0.phase == PushPhase::Failed,
        fail_repeatedly(m, m.max_attempts).1 == PushAction::Abort(OxenError::UploadFailed),
{
    assert forall|k: nat| 1 <= k < m.max_attempts implies #[trigger] fail_repeatedly(m, k).1
        == (PushAction::RetryUnit { unit: m.unit as usize, delay_secs: (k * k) as u64 }) by {
        lemma_fail_repeatedly(m, k);
    }
    reveal_with_fuel(fail_repeatedly, 2);
    if m.max_attempts > 1 {
        lemma_fail_repeatedly(m, (m.max_attempts - 1) as nat);
    }
}

/// Reads the outcome of a status or lookup request: a request that was not
/// answered is a transport failure; a 404 means the thing is not there (or,
/// for a commit's validity, not yet known); otherwise the body must parse.
pub fn interpret_lookup<T>(answered: bool, status: u16, parsed: Option<T>) -> (r: Result<Option<T>, OxenError>)
    ensures
        !answered ==> r == Err::<Option<T>, OxenError>(OxenError::TransportFailure),
        answered && status == 404 ==> r == Ok::<Option<T>, OxenError>(None),
        answered && status != 404 ==> match parsed {
            Some(v) => r == Ok::<Option<T>, OxenError>(Some(v)),
            None => r == Err::<Option<T>, OxenError>(OxenError::SerializationFailure),
        },
{
    if !answered {
        Err(OxenError::TransportFailure)
    } else if status == 404 {
        Ok(None)
    } else {
        match parsed {
            Some(v) => Ok(Some(v)),
            None => Err(OxenError::SerializationFailure),
        }
    }
}

} // verus!
