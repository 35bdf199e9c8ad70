//! File operation jobs: their kinds and states, the table of known jobs,
//! and the decisions a worker makes while it runs one.

use vstd::prelude::*;
use std::collections::HashMap;
use crate::paths::{
    extension_of, file_stem_of, joined, parent_of, path_extension, path_file_stem, path_join,
    path_parent, std_path_with_file_name, with_file_name_of,
};
use crate::text::push_char;

verus! {

broadcast use vstd::std_specs::hash::group_hash_axioms;

/// The 128 bits of a UUID made by `uuid::Uuid::new_v4`, read big-endian
/// (`as_u128`).  The source draws 128 random bits, clears the version and
/// variant fields and sets them to version 4 and variant `10`, so every
/// outcome has the nibble at bits 76..80 equal to 4 and bits 62..64 equal
/// to `10`.  The other 122 bits are random, and nothing is said of them.
#[verifier::external_body]
fn random_uuid_bits() -> (r: u128)
    ensures
        r & 0xF000_C000_0000_0000_0000 == 0x4000_8000_0000_0000_0000,
{
    uuid::Uuid::new_v4().as_u128()
}

/// The version and variant fields of a random (version 4, RFC variant)
/// UUID, read from its 128 bits.
pub open spec fn is_v4_uuid_bits(bits: u128) -> bool {
    &&& (bits >> 76u128) & 0xf == 4
    &&& (bits >> 62u128) & 0x3 == 2
}

/// Unique identifier for a job: the bits of a random (version 4) UUID.
#[derive(Clone, Copy, Debug, PartialEq, Eq, Structural, Hash)]
pub struct JobId(pub u128);

impl JobId {
    /// A fresh identifier: a random version 4 UUID.  Its version and variant
    /// fields are fixed; the remaining bits are random.
    pub fn new() -> (r: Self)
        ensures
            is_v4_uuid_bits(r.0),
    {
        let bits = random_uuid_bits();
        assert((bits >> 76u128) & 0xf == 4 && (bits >> 62u128) & 0x3 == 2) by (bit_vector)
            requires
                bits & 0xF000_C000_0000_0000_0000 == 0x4000_8000_0000_0000_0000,
        ;
        JobId(bits)
    }
}

impl Default for JobId {
    /// A fresh identifier, as [`JobId::new`] makes one.
    fn default() -> (r: Self)
        ensures
            is_v4_uuid_bits(r.0),
    {
        JobId::new()
    }
}

/// Types of file operations supported by the job queue.
#[derive(Clone, Debug)]
pub enum JobKind {
    Copy { src: String, dst: String },
    Move { src: String, dst: String },
    Rename { path: String, new_name: String },
    Trash { paths: Vec<String> },
    DeletePermanent { paths: Vec<String> },
    CreateDir { path: String },
    CreateFile { path: String },
    Compress { paths: Vec<String>, archive: String },
    Extract { archive: String, dst: String },
}

/// Current state of a job.
#[derive(Clone, Copy, Debug, PartialEq, Eq, Structural)]
pub enum JobState {
    Pending,
    Running,
    Paused,
    Completed,
    Cancelled,
    Failed,
}

/// Conflict resolution strategy.
#[derive(Clone, Copy, Debug, PartialEq, Eq, Structural)]
pub enum ConflictResolution {
    Overwrite,
    AutoRename,
    Skip,
    Cancel,
}

/// Progress update for a running job.
#[derive(Clone, Copy, Debug, PartialEq, Eq, Structural)]
pub struct JobProgress {
    pub job_id: JobId,
    pub processed_bytes: u64,
    pub total_bytes: u64,
    pub processed_items: u64,
    pub total_items: u64,
}

/// Why a job operation was refused or a job failed.
#[derive(Clone, Copy, Debug, PartialEq, Eq, Structural)]
pub enum JobError {
    /// No job with the given identifier is known.
    NotFound,
    /// A rename was asked of a path without a parent directory.
    NoParentDirectory,
    /// Compression and extraction are not implemented.
    NotImplemented,
    /// A copy met an existing destination under [`ConflictResolution::Cancel`].
    CancelledByConflict,
}

impl JobError {
    /// The message the error is reported with.
    pub fn message(&self) -> (r: String)
        ensures
            r@ == job_error_message(*self),
    {
        match self {
            JobError::NotFound => String::from_str("job not found"),
            JobError::NoParentDirectory => String::from_str("no parent directory"),
            JobError::NotImplemented => String::from_str("compress/extract not yet implemented"),
            JobError::CancelledByConflict => String::from_str("cancelled by conflict resolution"),
        }
    }
}

/// The message of each job error.
pub open spec fn job_error_message(e: JobError) -> Seq<char> {
    match e {
        JobError::NotFound => "job not found"@,
        JobError::NoParentDirectory => "no parent directory"@,
        JobError::NotImplemented => "compress/extract not yet implemented"@,
        JobError::CancelledByConflict => "cancelled by conflict resolution"@,
    }
}

/// The progress a job starts with: nothing processed of nothing.
pub open spec fn zero_progress(id: JobId) -> JobProgress {
    JobProgress {
        job_id: id,
        processed_bytes: 0,
        total_bytes: 0,
        processed_items: 0,
        total_items: 0,
    }
}

/// What the table keeps of one job.
#[derive(Debug)]
pub struct JobRecord {
    pub kind: JobKind,
    pub state: JobState,
    pub progress: JobProgress,
    pub error: Option<String>,
}

/// How a worker's run of a job ended.
#[derive(Clone, Debug)]
pub enum JobOutcome {
    /// The job's cancellation was seen before its work finished.
    Cancelled,
    /// The work finished without error.
    Succeeded,
    /// The work failed with the given message.
    Failed(String),
}

/// The state a job ends in after an outcome.
pub open spec fn outcome_state(o: JobOutcome) -> JobState {
    match o {
        JobOutcome::Cancelled => JobState::Cancelled,
        JobOutcome::Succeeded => JobState::Completed,
        JobOutcome::Failed(_) => JobState::Failed,
    }
}

/// The table after a job is recorded as pending.
pub open spec fn after_enqueue(m: Map<u128, JobRecord>, id: JobId, kind: JobKind) -> Map<u128, JobRecord> {
    m.insert(
        id.0,
        JobRecord { kind, state: JobState::Pending, progress: zero_progress(id), error: None },
    )
}

/// The table after the state of a job is set; unknown jobs are ignored.
pub open spec fn after_set_state(m: Map<u128, JobRecord>, id: JobId, state: JobState) -> Map<u128, JobRecord> {
    if m.contains_key(id.0) {
        m.insert(id.0, JobRecord { state, ..m[id.0] })
    } else {
        m
    }
}

/// The table after a worker reports how a job ended; unknown jobs are
/// ignored.
pub open spec fn after_finish(m: Map<u128, JobRecord>, id: JobId, outcome: JobOutcome) -> Map<u128, JobRecord> {
    if m.contains_key(id.0) {
        m.insert(
            id.0,
            JobRecord {
                state: outcome_state(outcome),
                error: match outcome {
                    JobOutcome::Failed(msg) => Some(msg),
                    _ => m[id.0].error,
                },
                ..m[id.0]
            },
        )
    } else {
        m
    }
}

/// The state of a job, or the error for an unknown one.
pub open spec fn lookup_state(m: Map<u128, JobRecord>, id: JobId) -> Result<JobState, JobError> {
    if m.contains_key(id.0) {
        Ok(m[id.0].state)
    } else {
        Err(JobError::NotFound)
    }
}

/// The recorded progress of a job, or the error for an unknown one.
pub open spec fn lookup_progress(m: Map<u128, JobRecord>, id: JobId) -> Result<Option<JobProgress>, JobError> {
    if m.contains_key(id.0) {
        Ok(Some(m[id.0].progress))
    } else {
        Err(JobError::NotFound)
    }
}

/// The known jobs, by identifier, and the conflict resolution that newly
/// started jobs use.
pub struct JobTable {
    jobs: HashMap<u128, JobRecord>,
    conflict_resolution: ConflictResolution,
}

impl View for JobTable {
    type V = Map<u128, JobRecord>;

    closed spec fn view(&self) -> Map<u128, JobRecord> {
        self.jobs@
    }
}

impl JobTable {
    /// The conflict resolution that newly started jobs use.
    pub closed spec fn resolution(&self) -> ConflictResolution {
        self.conflict_resolution
    }

    /// An empty table; new jobs rename on conflict.
    pub fn new() -> (r: Self)
        ensures
            r@ == Map::<u128, JobRecord>::empty(),
            r.resolution() == ConflictResolution::AutoRename,
    {
        JobTable { jobs: HashMap::new(), conflict_resolution: ConflictResolution::AutoRename }
    }

    /// Record a new pending job and return the conflict resolution its
    /// worker runs with.
    pub fn enqueue(&mut self, id: JobId, kind: JobKind) -> (r: ConflictResolution)
        ensures
            final(self)@ == after_enqueue(old(self)@, id, kind),
            final(self).resolution() == old(self).resolution(),
            r == old(self).resolution(),
    {
        let record = JobRecord {
            kind,
            state: JobState::Pending,
            progress: JobProgress {
                job_id: id,
                processed_bytes: 0,
                total_bytes: 0,
                processed_items: 0,
                total_items: 0,
            },
            error: None,
        };
        self.jobs.insert(id.0, record);
        self.conflict_resolution
    }

    /// Whether a job is known, so that a cancellation of it takes effect.
    pub fn contains(&self, id: JobId) -> (r: bool)
        ensures
            r == self@.contains_key(id.0),
    {
        self.jobs.contains_key(&id.0)
    }

    /// Change the conflict resolution of jobs started from now on.
    pub fn set_conflict_resolution(&mut self, resolution: ConflictResolution)
        ensures
            final(self)@ == old(self)@,
            final(self).resolution() == resolution,
    {
        self.conflict_resolution = resolution;
    }

    /// The conflict resolution of jobs started from now on.
    pub fn conflict_resolution(&self) -> (r: ConflictResolution)
        ensures
            r == self.resolution(),
    {
        self.conflict_resolution
    }

    /// Set the state of a known job; an unknown identifier changes nothing.
    pub fn set_state(&mut self, id: JobId, state: JobState)
        ensures
            final(self).resolution() == old(self).resolution(),
            final(self)@ == after_set_state(old(self)@, id, state),
    {
        match self.jobs.remove(&id.0) {
            Some(rec) => {
                let rec = JobRecord { state, ..rec };
                self.jobs.insert(id.0, rec);
            },
            None => {},
        }
    }

    /// Record how a worker's run of a known job ended: its final state and,
    /// for a failure, the message.
    pub fn finish(&mut self, id: JobId, outcome: JobOutcome) -> (r: JobState)
        ensures
            r == outcome_state(outcome),
            final(self).resolution() == old(self).resolution(),
            final(self)@ == after_finish(old(self)@, id, outcome),
    {
        let state = match outcome {
            JobOutcome::Cancelled => JobState::Cancelled,
            JobOutcome::Succeeded => JobState::Completed,
            JobOutcome::Failed(_) => JobState::Failed,
        };
        match self.jobs.remove(&id.0) {
            Some(rec) => {
                let rec = match outcome {
                    JobOutcome::Failed(m) => JobRecord { state, error: Some(m), ..rec },
                    _ => JobRecord { state, ..rec },
                };
                self.jobs.insert(id.0, rec);
            },
            None => {},
        }
        state
    }

    /// The state of a job.
    pub fn state(&self, id: JobId) -> (r: Result<JobState, JobError>)
        ensures
            r == lookup_state(self@, id),
    {
        match self.jobs.get(&id.0) {
            Some(rec) => Ok(rec.state),
            None => Err(JobError::NotFound),
        }
    }

    /// The recorded progress of a job.
    pub fn progress(&self, id: JobId) -> (r: Result<Option<JobProgress>, JobError>)
        ensures
            r == lookup_progress(self@, id),
    {
        match self.jobs.get(&id.0) {
            Some(rec) => Ok(Some(rec.progress)),
            None => Err(JobError::NotFound),
        }
    }
}


/// The decimal digit character of `d`, for `d < 10`.
pub open spec fn digit_char(d: nat) -> char {
    if d == 0 {
        '0'
    } else if d == 1 {
        '1'
    } else if d == 2 {
        '2'
    } else if d == 3 {
        '3'
    } else if d == 4 {
        '4'
    } else if d == 5 {
        '5'
    } else if d == 6 {
        '6'
    } else if d == 7 {
        '7'
    } else if d == 8 {
        '8'
    } else {
        '9'
    }
}

/// The decimal representation of `n`, without leading zeros.
pub open spec fn decimal(n: nat) -> Seq<char>
    decreases n,
{
    if n < 10 {
        seq![digit_char(n)]
    } else {
        decimal(n / 10).push(digit_char(n % 10))
    }
}

fn digit_exec(d: u64) -> (c: char)
    requires
        d < 10,
    ensures
        c == digit_char(d as nat),
{
    if d == 0 {
        '0'
    } else if d == 1 {
        '1'
    } else if d == 2 {
        '2'
    } else if d == 3 {
        '3'
    } else if d == 4 {
        '4'
    } else if d == 5 {
        '5'
    } else if d == 6 {
        '6'
    } else if d == 7 {
        '7'
    } else if d == 8 {
        '8'
    } else {
        '9'
    }
}

/// Append the decimal representation of `n` to `s`.
fn push_decimal(s: &mut String, n: u64)
    ensures
        final(s)@ == old(s)@ + decimal(n as nat),
    decreases n,
{
    if n >= 10 {
        push_decimal(s, n / 10);
    }
    push_char(s, digit_exec(n % 10));
    proof {
        if n < 10 {
            assert(old(s)@ + decimal(n as nat) =~= old(s)@.push(digit_char(n as nat)));
        } else {
            assert(old(s)@ + decimal(n as nat) =~= (old(s)@ + decimal((n / 10) as nat)).push(
                digit_char((n % 10) as nat),
            ));
        }
    }
}

/// The file name a copy takes when its destination is taken: the stem,
/// `_`, the counter, and the extension after a `.` when there is one.
pub open spec fn renamed_file_name(stem: Seq<char>, counter: nat, ext: Seq<char>) -> Seq<char> {
    if ext.len() == 0 {
        stem + seq!['_'] + decimal(counter)
    } else {
        stem + seq!['_'] + decimal(counter) + seq!['.'] + ext
    }
}

/// The `counter`-th alternative destination for `dst`: its file name
/// replaced by the renamed file name built from its stem and extension.
pub open spec fn auto_rename_spec(dst: Seq<char>, counter: nat) -> Seq<char> {
    let stem = match file_stem_of(dst) {
        Some(s) => s,
        None => seq![],
    };
    let ext = match extension_of(dst) {
        Some(e) => e,
        None => seq![],
    };
    with_file_name_of(dst, renamed_file_name(stem, counter, ext))
}

/// The `counter`-th alternative destination for `dst`, such as
/// `dir/file_1.txt` for `dir/file.txt`.
pub fn auto_rename_candidate(dst: &str, counter: u64) -> (r: String)
    ensures
        r@ == auto_rename_spec(dst@, counter as nat),
{
    let mut name = match path_file_stem(dst) {
        Some(s) => s,
        None => String::new(),
    };
    let ext = match path_extension(dst) {
        Some(e) => e,
        None => String::new(),
    };
    let ghost stem = name@;
    push_char(&mut name, '_');
    push_decimal(&mut name, counter);
    if !ext.as_str().is_empty() {
        push_char(&mut name, '.');
        name.append(ext.as_str());
    }
    proof {
        if ext@.len() == 0 {
            assert(name@ =~= renamed_file_name(stem, counter as nat, ext@));
        } else {
            assert(name@ =~= renamed_file_name(stem, counter as nat, ext@));
        }
    }
    std_path_with_file_name(dst, name.as_str())
}

/// The search for a free destination when a copied file's destination
/// exists: the destination itself is tried first, then the alternatives
/// numbered from 1 on.
pub struct FreeNameSearch {
    dst: String,
    counter: u64,
    candidate: String,
}

impl FreeNameSearch {
    /// The destination whose alternatives are tried.
    pub closed spec fn destination(&self) -> Seq<char> {
        self.dst@
    }

    /// The number of the next alternative.
    pub closed spec fn next_number(&self) -> nat {
        self.counter as nat
    }

    /// The path to probe now.
    pub closed spec fn current(&self) -> Seq<char> {
        self.candidate@
    }

    /// Start the search at the destination itself.
    pub fn new(dst: String) -> (r: Self)
        ensures
            r.destination() == dst@,
            r.current() == dst@,
            r.next_number() == 1,
    {
        let candidate = dst.clone();
        FreeNameSearch { dst, counter: 1, candidate }
    }

    /// The path to probe now.
    pub fn candidate(&self) -> (r: &str)
        ensures
            r@ == self.current(),
    {
        self.candidate.as_str()
    }

    /// Whether the numbered alternatives are used up (the counter cannot
    /// go further).
    pub fn exhausted(&self) -> (r: bool)
        ensures
            r == (self.next_number() == u64::MAX),
    {
        self.counter == u64::MAX
    }

    /// Report whether the current path exists.  When it does not, it is the
    /// destination to copy to; when it does, the search moves on to the
    /// next numbered alternative.
    pub fn report(&mut self, exists: bool) -> (r: Option<String>)
        requires
            exists ==> old(self).next_number() < u64::MAX,
        ensures
            final(self).destination() == old(self).destination(),
            !exists ==> (r matches Some(p) && p@ == old(self).current() && final(self).current()
                == old(self).current() && final(self).next_number() == old(self).next_number()),
            exists ==> r is None && final(self).current() == auto_rename_spec(
                old(self).destination(),
                old(self).next_number(),
            ) && final(self).next_number() == old(self).next_number() + 1,
    {
        if !exists {
            return Some(self.candidate.clone());
        }
        self.candidate = auto_rename_candidate(self.dst.as_str(), self.counter);
        self.counter = self.counter + 1;
        None
    }
}

/// Where a copied file goes.
pub enum CopyTarget {
    /// Copy onto this path.
    To(String),
    /// The destination exists: search for a free alternative.
    FindFreeName(FreeNameSearch),
    /// Leave this file alone; the job goes on.
    Skip,
    /// Stop the job with this error.
    Abort(JobError),
}

/// Decide where a file is copied, given whether its destination exists and
/// the job's conflict resolution.
pub fn copy_target(dst: String, dst_exists: bool, conflict: ConflictResolution) -> (r: CopyTarget)
    ensures
        !dst_exists ==> (r matches CopyTarget::To(p) && p@ == dst@),
        dst_exists && conflict == ConflictResolution::Overwrite ==> (r matches CopyTarget::To(p)
            && p@ == dst@),
        dst_exists && conflict == ConflictResolution::AutoRename ==> (r matches CopyTarget::FindFreeName(
            s,
        ) && s.destination() == dst@ && s.current() == dst@ && s.next_number() == 1),
        dst_exists && conflict == ConflictResolution::Skip ==> r is Skip,
        dst_exists && conflict == ConflictResolution::Cancel ==> r == CopyTarget::Abort(
            JobError::CancelledByConflict,
        ),
{
    if !dst_exists {
        return CopyTarget::To(dst);
    }
    match conflict {
        ConflictResolution::Overwrite => CopyTarget::To(dst),
        ConflictResolution::AutoRename => CopyTarget::FindFreeName(FreeNameSearch::new(dst)),
        ConflictResolution::Skip => CopyTarget::Skip,
        ConflictResolution::Cancel => CopyTarget::Abort(JobError::CancelledByConflict),
    }
}

/// What a copy did with the files it reached.
#[derive(Clone, Copy, Debug, PartialEq, Eq, Structural)]
pub enum CopyOutcome {
    /// Every file was copied.
    Copied,
    /// At least one file was left alone (its destination existed and the
    /// conflict resolution said to skip it).
    Skipped,
}

/// The outcome of a copy made of two parts: copied only when both were.
pub fn combine_outcomes(a: CopyOutcome, b: CopyOutcome) -> (r: CopyOutcome)
    ensures
        r == CopyOutcome::Copied <==> (a == CopyOutcome::Copied && b == CopyOutcome::Copied),
{
    match (a, b) {
        (CopyOutcome::Copied, CopyOutcome::Copied) => CopyOutcome::Copied,
        _ => CopyOutcome::Skipped,
    }
}

/// A move removes its source only when its copy was made in full, so a
/// skipped file is never lost.
pub fn may_remove_source(o: CopyOutcome) -> (r: bool)
    ensures
        r == (o == CopyOutcome::Copied),
{
    match o {
        CopyOutcome::Copied => true,
        CopyOutcome::Skipped => false,
    }
}

/// The source and destination of a directory's child `name` in a
/// recursive copy.
pub fn copy_child_paths(src: &str, dst: &str, name: &str) -> (r: (String, String))
    ensures
        r.0@ == joined(src@, name@),
        r.1@ == joined(dst@, name@),
{
    (path_join(src, name), path_join(dst, name))
}

/// The progress reported after one file of `len` bytes was copied.
pub fn file_copied_progress(id: JobId, len: u64) -> (r: JobProgress)
    ensures
        r == (JobProgress {
            job_id: id,
            processed_bytes: len,
            total_bytes: len,
            processed_items: 1,
            total_items: 1,
        }),
{
    JobProgress { job_id: id, processed_bytes: len, total_bytes: len, processed_items: 1, total_items: 1 }
}

/// The file system work a job stands for.
#[derive(Clone, Debug)]
pub enum JobAction {
    /// Copy `src` to `dst`, recursively for a directory.
    CopyTree { src: String, dst: String },
    /// Copy `src` to `dst`, then remove `src`.
    MoveTree { src: String, dst: String },
    /// Rename `from` to `to`.
    RenameTo { from: String, to: String },
    /// Move each path to the trash.
    TrashEach { paths: Vec<String> },
    /// Delete each path, directories with their contents.
    DeleteEach { paths: Vec<String> },
    /// Create a directory and its missing parents.
    CreateDirAll { path: String },
    /// Create an empty file.
    CreateEmptyFile { path: String },
}

/// The work a job kind stands for.  A rename keeps the parent directory
/// and replaces the final component; it fails for a path without parent.
/// Compression and extraction fail as not implemented.
pub fn job_action(kind: JobKind) -> (r: Result<JobAction, JobError>)
    ensures
        match kind {
            JobKind::Copy { src, dst } => r matches Ok(JobAction::CopyTree { src: s, dst: d })
                && s@ == src@ && d@ == dst@,
            JobKind::Move { src, dst } => r matches Ok(JobAction::MoveTree { src: s, dst: d })
                && s@ == src@ && d@ == dst@,
            JobKind::Rename { path, new_name } => match parent_of(path@) {
                Some(p) => r matches Ok(JobAction::RenameTo { from, to }) && from@ == path@ && to@
                    == joined(p, new_name@),
                None => r == Err::<JobAction, JobError>(JobError::NoParentDirectory),
            },
            JobKind::Trash { paths } => r matches Ok(JobAction::TrashEach { paths: ps }) && ps@
                == paths@,
            JobKind::DeletePermanent { paths } => r matches Ok(
                JobAction::DeleteEach { paths: ps },
            ) && ps@ == paths@,
            JobKind::CreateDir { path } => r matches Ok(JobAction::CreateDirAll { path: p }) && p@
                == path@,
            JobKind::CreateFile { path } => r matches Ok(JobAction::CreateEmptyFile { path: p })
                && p@ == path@,
            JobKind::Compress { .. } => r == Err::<JobAction, JobError>(JobError::NotImplemented),
            JobKind::Extract { .. } => r == Err::<JobAction, JobError>(JobError::NotImplemented),
        },
{
    match kind {
        JobKind::Copy { src, dst } => Ok(JobAction::CopyTree { src, dst }),
        JobKind::Move { src, dst } => Ok(JobAction::MoveTree { src, dst }),
        JobKind::Rename { path, new_name } => match path_parent(path.as_str()) {
            Some(p) => {
                let to = path_join(p.as_str(), new_name.as_str());
                Ok(JobAction::RenameTo { from: path, to })
            },
            None => Err(JobError::NoParentDirectory),
        },
        JobKind::Trash { paths } => Ok(JobAction::TrashEach { paths }),
        JobKind::DeletePermanent { paths } => Ok(JobAction::DeleteEach { paths }),
        JobKind::CreateDir { path } => Ok(JobAction::CreateDirAll { path }),
        JobKind::CreateFile { path } => Ok(JobAction::CreateEmptyFile { path }),
        JobKind::Compress { .. } => Err(JobError::NotImplemented),
        JobKind::Extract { .. } => Err(JobError::NotImplemented),
    }
}

/// A job just enqueued is pending, with nothing processed.
pub proof fn law_enqueued_job_is_pending(m: Map<u128, JobRecord>, id: JobId, kind: JobKind)
    ensures
        lookup_state(after_enqueue(m, id, kind), id) == Ok::<JobState, JobError>(JobState::Pending),
        lookup_progress(after_enqueue(m, id, kind), id) == Ok::<Option<JobProgress>, JobError>(
            Some(zero_progress(id)),
        ),
{
}

/// Reading the state of a known job gives back the state last set.
pub proof fn law_state_reads_back(m: Map<u128, JobRecord>, id: JobId, state: JobState)
    requires
        m.contains_key(id.0),
    ensures
        lookup_state(after_set_state(m, id, state), id) == Ok::<JobState, JobError>(state),
        lookup_progress(after_set_state(m, id, state), id) == lookup_progress(m, id),
{
}

/// A finished job is in the state its outcome calls for, and a failed one
/// keeps the failure's message.
pub proof fn law_finish_reads_back(m: Map<u128, JobRecord>, id: JobId, outcome: JobOutcome)
    requires
        m.contains_key(id.0),
    ensures
        lookup_state(after_finish(m, id, outcome), id) == Ok::<JobState, JobError>(
            outcome_state(outcome),
        ),
        outcome matches JobOutcome::Failed(msg) ==> after_finish(m, id, outcome)[id.0].error == Some(
            msg,
        ),
{
}

/// Operations on one job leave every other job as it was.
pub proof fn law_other_jobs_unchanged(
    m: Map<u128, JobRecord>,
    id: JobId,
    other: JobId,
    kind: JobKind,
    state: JobState,
    outcome: JobOutcome,
)
    requires
        id.0 != other.0,
    ensures
        lookup_state(after_enqueue(m, id, kind), other) == lookup_state(m, other),
        lookup_state(after_set_state(m, id, state), other) == lookup_state(m, other),
        lookup_state(after_finish(m, id, outcome), other) == lookup_state(m, other),
        lookup_progress(after_enqueue(m, id, kind), other) == lookup_progress(m, other),
        lookup_progress(after_set_state(m, id, state), other) == lookup_progress(m, other),
        lookup_progress(after_finish(m, id, outcome), other) == lookup_progress(m, other),
{
}

/// An unknown job is reported as not found, and setting its state or
/// finishing it changes nothing.
pub proof fn law_unknown_job(m: Map<u128, JobRecord>, id: JobId, state: JobState, outcome: JobOutcome)
    requires
        !m.contains_key(id.0),
    ensures
        lookup_state(m, id) == Err::<JobState, JobError>(JobError::NotFound),
        lookup_progress(m, id) == Err::<Option<JobProgress>, JobError>(JobError::NotFound),
        after_set_state(m, id, state) == m,
        after_finish(m, id, outcome) == m,
{
}

} // verus!
