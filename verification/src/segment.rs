//! Named shared-memory segments of the operating system.

use vstd::prelude::*;
use vstd::string::StringExecFns;
use crate::text::{decimal, lemma_decimal_injective, push_decimal};
use rand::Rng;
use shared_memory::{Shmem, ShmemConf, ShmemError};
use crate::common::{SegmentID, ZError, ZResult};

verus! {

/// How many random ids `Segment::create` tries before it gives up.
pub const SEGMENT_DEDICATE_TRIES: usize = 100;

#[verifier::external_type_specification]
#[verifier::external_body]
pub struct ExShmem(Shmem);

#[verifier::external_type_specification]
#[verifier::external_body]
pub struct ExShmemError(ShmemError);

/// Why the operating system did not create or open a mapping.
#[derive(Clone, Copy, Debug, PartialEq, Eq, Structural)]
pub enum MappingError {
    MapSizeZero,
    NoLinkOrOsId,
    FlinkInvalidOsId,
    LinkCreateFailed,
    LinkWriteFailed,
    LinkExists,
    LinkOpenFailed,
    LinkReadFailed,
    LinkDoesNotExist,
    MappingIdExists,
    MapCreateFailed(u32),
    MapOpenFailed(u32),
    UnknownOsError(u32),
}

/// The name under which the operating system knows the segment `id` of the
/// family `prefix`: the prefix, an underscore and the id in decimal.
pub open spec fn os_id_spec(id: SegmentID, prefix: Seq<char>) -> Seq<char> {
    prefix + seq!['_'] + decimal(id as nat)
}

/// Two segments of one family have the same name only if they have the
/// same id: where the operating system keeps names apart, it keeps ids
/// apart.
pub proof fn lemma_os_id_injective(a: SegmentID, b: SegmentID, prefix: Seq<char>)
    requires
        os_id_spec(a, prefix) == os_id_spec(b, prefix),
    ensures
        a == b,
{
    let head = prefix + seq!['_'];
    assert(os_id_spec(a, prefix).skip(head.len() as int) =~= decimal(a as nat));
    assert(os_id_spec(b, prefix).skip(head.len() as int) =~= decimal(b as nat));
    lemma_decimal_injective(a as nat, b as nat);
}

/// Draws an id from the thread's random generator, `rand::thread_rng().gen()`.
/// Nothing is claimed of the number drawn.
#[verifier::external_body]
fn random_id() -> SegmentID {
    rand::thread_rng().gen()
}

/// Tells the variants of `shared_memory::ShmemError` apart, keeping the
/// operating system's error number where there is one.
#[verifier::external_body]
fn mapping_error(error: &ShmemError) -> MappingError {
    match error {
        ShmemError::MapSizeZero => MappingError::MapSizeZero,
        ShmemError::NoLinkOrOsId => MappingError::NoLinkOrOsId,
        ShmemError::FlinkInvalidOsId => MappingError::FlinkInvalidOsId,
        ShmemError::LinkCreateFailed(_) => MappingError::LinkCreateFailed,
        ShmemError::LinkWriteFailed(_) => MappingError::LinkWriteFailed,
        ShmemError::LinkExists => MappingError::LinkExists,
        ShmemError::LinkOpenFailed(_) => MappingError::LinkOpenFailed,
        ShmemError::LinkReadFailed(_) => MappingError::LinkReadFailed,
        ShmemError::LinkDoesNotExist => MappingError::LinkDoesNotExist,
        ShmemError::MappingIdExists => MappingError::MappingIdExists,
        ShmemError::MapCreateFailed(code) => MappingError::MapCreateFailed(*code),
        ShmemError::MapOpenFailed(code) => MappingError::MapOpenFailed(*code),
        ShmemError::UnknownOsError(code) => MappingError::UnknownOsError(*code),
    }
}

/// The text that `shared_memory::ShmemError` displays, after `context` and a
/// colon.
#[verifier::external_body]
fn error_text(context: &str, error: &ShmemError) -> String {
    format!("{}: {}", context, error)
}

/// `ShmemConf::new().size(size).os_id(name).create()`. The crate refuses a
/// size of zero before it asks the operating system.
#[verifier::external_body]
fn create_mapping(name: &str, size: usize) -> (result: Result<Shmem, ShmemError>)
    ensures
        size == 0 ==> result is Err,
{
    ShmemConf::new().size(size).os_id(name).create()
}

/// `ShmemConf::new().os_id(name).open()`.
#[verifier::external_body]
fn open_mapping(name: &str) -> Result<Shmem, ShmemError> {
    ShmemConf::new().os_id(name).open()
}

/// `Shmem::len`: the number of bytes of the mapping, as the crate reports
/// it. Nothing is claimed of it.
#[verifier::external_body]
fn mapping_len(shmem: &Shmem) -> usize {
    shmem.len()
}

/// `Shmem::as_ptr`, as an address: where the mapping begins in this process.
/// Nothing is claimed of it.
#[verifier::external_body]
fn mapping_address(shmem: &Shmem) -> usize {
    shmem.as_ptr() as usize
}

/// What `Segment::create` does after the operating system refused a name.
#[derive(Clone, Copy, Debug, PartialEq, Eq, Structural)]
pub enum AfterRefusal {
    /// Draw another id and try again.
    TryAnotherId,
    /// All tries are used up.
    OutOfIds,
    /// The failure is not a name collision: report it.
    Fatal,
}

/// Whether the operating system refused a mapping because its name is in
/// use.
pub open spec fn is_name_collision(error: MappingError) -> bool {
    error is LinkExists || error is MappingIdExists
}

/// Decides what follows a refused creation, after `tries_made` attempts
/// (this one included).
pub fn after_refusal(error: MappingError, tries_made: usize) -> (next: AfterRefusal)
    ensures
        next == (if !is_name_collision(error) {
            AfterRefusal::Fatal
        } else if tries_made < SEGMENT_DEDICATE_TRIES {
            AfterRefusal::TryAnotherId
        } else {
            AfterRefusal::OutOfIds
        }),
{
    match error {
        MappingError::LinkExists | MappingError::MappingIdExists => {
            if tries_made < SEGMENT_DEDICATE_TRIES {
                AfterRefusal::TryAnotherId
            } else {
                AfterRefusal::OutOfIds
            }
        },
        _ => AfterRefusal::Fatal,
    }
}

/// A segment of shared memory, identified by a prefix and a numeric id.
pub struct Segment {
    shmem: Shmem,
    id: SegmentID,
    len: usize,
    address: usize,
    name: String,
}

impl Segment {
    pub closed spec fn id_spec(&self) -> SegmentID {
        self.id
    }

    pub closed spec fn len_spec(&self) -> usize {
        self.len
    }

    /// The name under which the operating system was asked to create or to
    /// open the segment.
    pub closed spec fn name_spec(&self) -> Seq<char> {
        self.name@
    }

    /// Where the segment was mapped into this process when it was created
    /// or opened. The mapping stays there as long as the segment lives.
    pub closed spec fn address_spec(&self) -> usize {
        self.address
    }

    /// The name of segment `id` in the family `id_prefix`.
    pub fn os_id(id: SegmentID, id_prefix: &str) -> (name: String)
        ensures
            name@ == os_id_spec(id, id_prefix@),
    {
        proof {
            reveal_strlit("_");
        }
        let mut name = String::from_str(id_prefix);
        name.append("_");
        push_decimal(&mut name, id as u64);
        assert(name@ =~= os_id_spec(id, id_prefix@));
        name
    }

    /// Creates a new segment of `alloc_size` bytes under a random id. A name
    /// that is in use makes it draw another id, up to
    /// `SEGMENT_DEDICATE_TRIES` times; any other refusal ends the search.
    /// The segment that is returned is the one that the operating system
    /// created, when it was asked for a new one, under the name of the id
    /// that the segment carries.
    pub fn create(alloc_size: usize, id_prefix: &str) -> (result: ZResult<Segment>)
        ensures
            result is Ok ==> result->Ok_0.len_spec() == alloc_size && alloc_size > 0,
            result is Ok ==> result->Ok_0.name_spec() == os_id_spec(
                result->Ok_0.id_spec(),
                id_prefix@,
            ),
            result is Err ==> result->Err_0 is OutOfIds || result->Err_0 is Other,
    {
        let mut tries: usize = 0;
        while tries < SEGMENT_DEDICATE_TRIES
            invariant
                tries <= SEGMENT_DEDICATE_TRIES,
            decreases SEGMENT_DEDICATE_TRIES - tries,
        {
            let id = random_id();
            let name = Self::os_id(id, id_prefix);
            tries = tries + 1;
            match create_mapping(name.as_str(), alloc_size) {
                Ok(shmem) => {
                    let address = mapping_address(&shmem);
                    return Ok(Segment { shmem, id, len: alloc_size, address, name });
                },
                Err(e) => match after_refusal(mapping_error(&e), tries) {
                    AfterRefusal::TryAnotherId => {},
                    AfterRefusal::OutOfIds => {
                        return Err(ZError::OutOfIds);
                    },
                    AfterRefusal::Fatal => {
                        return Err(
                            ZError::Other(error_text("Unable to create POSIX shm segment", &e)),
                        );
                    },
                },
            }
        }
        Err(ZError::OutOfIds)
    }

    /// Attaches to the existing segment `id` of the family `id_prefix`.
    pub fn open(id: SegmentID, id_prefix: &str) -> (result: ZResult<Segment>)
        ensures
            result is Ok ==> result->Ok_0.id_spec() == id,
            result is Ok ==> result->Ok_0.name_spec() == os_id_spec(id, id_prefix@),
            result is Err ==> result->Err_0 is SegmentNotFound || result->Err_0 is Other,
    {
        let name = Self::os_id(id, id_prefix);
        match open_mapping(name.as_str()) {
            Ok(shmem) => {
                let len = mapping_len(&shmem);
                let address = mapping_address(&shmem);
                Ok(Segment { shmem, id, len, address, name })
            },
            Err(e) => match mapping_error(&e) {
                MappingError::MapOpenFailed(_) => Err(ZError::SegmentNotFound),
                _ => Err(ZError::Other(error_text("Unable to open POSIX shm segment", &e))),
            },
        }
    }

    /// The address of the segment's first byte in this process: where the
    /// segment was mapped when it was created or opened.
    pub fn as_ptr(&self) -> (address: usize)
        ensures
            address == self.address_spec(),
    {
        self.address
    }

    /// The number of bytes of the segment: of one that was created here, the
    /// number that was asked for; of one that was opened, the number that
    /// the operating system reports.
    pub fn len(&self) -> (len: usize)
        ensures
            len == self.len_spec(),
    {
        self.len
    }

    /// The name of the segment for the operating system.
    pub fn name(&self) -> (name: &str)
        ensures
            name@ == self.name_spec(),
    {
        self.name.as_str()
    }

    pub fn id(&self) -> (id: SegmentID)
        ensures
            id == self.id_spec(),
    {
        self.id
    }
}

} // verus!
