//! The consumer's side: from the descriptor that came over the wire to a
//! reference to the buffer.

use vstd::prelude::*;
use crate::buffer::{owns_header, retained, SharedMemoryBuf, SharedMemoryBufInfo};
use crate::common::{ZError, ZResult};
use crate::header::OwnedHeaderDescriptor;
use crate::posix::client::{SharedMemoryClient, SharedMemorySegment};
use crate::resources::{ResourcesModel, SharedResources};
use crate::watchdog::confirmator::ConfirmedDescriptor;
use crate::watchdog::descriptor::{bit_mask, unpack_bitpos, unpack_index, OwnedDescriptor};

verus! {

/// The buffer that `info` describes, as a consumer holds it: `data` is the
/// address of its chunk in the consumer's process.
pub open spec fn attached(info: SharedMemoryBufInfo, data: usize) -> SharedMemoryBuf {
    SharedMemoryBuf {
        header: OwnedHeaderDescriptor {
            segment: info.header_descriptor.id,
            index: info.header_descriptor.index,
        },
        buf: data,
        info,
        watchdog: ConfirmedDescriptor {
            owned: OwnedDescriptor {
                segment: info.watchdog_descriptor.id,
                index: unpack_index(info.watchdog_descriptor.index_and_bitpos),
                mask: bit_mask(unpack_bitpos(info.watchdog_descriptor.index_and_bitpos)),
            },
        },
    }
}

/// Why a consumer cannot attach to `info` whatever the segments are: its
/// header is in no record of the header segment, or the record has moved on
/// to another generation.
pub open spec fn refusal(info: SharedMemoryBufInfo, resources: ResourcesModel) -> Option<ZError> {
    if info.header_descriptor.id != resources.header_segment
        || info.header_descriptor.index >= resources.headers.len() {
        Some(ZError::SegmentNotFound)
    } else if resources.headers[info.header_descriptor.index as int].generation
        != info.generation {
        Some(ZError::StaleDescriptor)
    } else {
        None
    }
}

/// Decides whether a consumer may attach at all.
pub fn check_refusal(info: &SharedMemoryBufInfo, resources: &SharedResources) -> (result: Option<
    ZError,
>)
    requires
        resources.wf(),
    ensures
        result == refusal(*info, resources@),
{
    match resources.headers.check_generation(&info.header_descriptor, info.generation) {
        Ok(()) => None,
        Err(e) => Some(e),
    }
}

/// Makes the consumer's buffer for a descriptor that is not refused, once
/// its chunk is mapped at `data`: the header counts one more reference.
pub fn attach_mapped(info: &SharedMemoryBufInfo, data: usize, resources: &mut SharedResources) -> (buffer:
    SharedMemoryBuf)
    requires
        old(resources).wf(),
        refusal(*info, old(resources)@) is None,
    ensures
        final(resources).wf(),
        buffer == attached(*info, data),
        owns_header(old(resources)@, buffer),
        final(resources)@ == retained(old(resources)@, buffer),
{
    let buffer = SharedMemoryBuf {
        header: OwnedHeaderDescriptor {
            segment: info.header_descriptor.id,
            index: info.header_descriptor.index,
        },
        buf: data,
        info: *info,
        watchdog: ConfirmedDescriptor { owned: info.watchdog_descriptor.to_owned() },
    };
    buffer.retain(resources);
    buffer
}

/// What follows the client's answer to mapping the chunk: a failure is
/// returned and changes nothing; an address makes the buffer, and the header
/// counts one more reference.
pub open spec fn after_map(
    mapped: ZResult<usize>,
    info: SharedMemoryBufInfo,
    before: ResourcesModel,
    after: ResourcesModel,
    result: ZResult<SharedMemoryBuf>,
) -> bool {
    match mapped {
        Err(e) => result == Err::<SharedMemoryBuf, ZError>(e) && after == before,
        Ok(data) => result == Ok::<SharedMemoryBuf, ZError>(attached(info, data)) && after
            == retained(before, attached(info, data)),
    }
}

/// What follows the client's answer to attaching the segment: a failure is
/// returned and changes nothing; on a segment, the chunk of the descriptor
/// is mapped, and what the segment answers decides.
pub open spec fn after_attach<Attached: SharedMemorySegment>(
    answer: ZResult<Attached>,
    info: SharedMemoryBufInfo,
    before: ResourcesModel,
    after: ResourcesModel,
    result: ZResult<SharedMemoryBuf>,
) -> bool {
    match answer {
        Err(e) => result == Err::<SharedMemoryBuf, ZError>(e) && after == before,
        Ok(segment) => exists|mapped: ZResult<usize>|
            #[trigger] segment.map_post(info.data_descriptor.chunk, mapped) && after_map(
                mapped,
                info,
                before,
                after,
                result,
            ),
    }
}

/// Attaches to the buffer that `info` describes, through the client for the
/// protocol of the buffer. A descriptor that is refused is refused before any
/// segment is touched. Else the client is asked for the segment of the
/// chunk, as the descriptor names it, and the segment for the chunk, as the
/// descriptor names it; where both answer, the header counts one more
/// reference. A failure changes nothing.
pub fn attach<Client: SharedMemoryClient>(
    client: &Client,
    info: &SharedMemoryBufInfo,
    resources: &mut SharedResources,
) -> (result: ZResult<SharedMemoryBuf>)
    requires
        old(resources).wf(),
    ensures
        final(resources).wf(),
        refusal(*info, old(resources)@) is Some ==> result == Err::<SharedMemoryBuf, ZError>(
            refusal(*info, old(resources)@)->Some_0,
        ),
        refusal(*info, old(resources)@) is None ==> exists|answer: ZResult<Client::Attached>|
            #[trigger] client.attach_post(info.data_descriptor.segment, answer) && after_attach(
                answer,
                *info,
                old(resources)@,
                final(resources)@,
                result,
            ),
        result is Err ==> final(resources)@ == old(resources)@,
        result is Ok ==> {
            &&& result->Ok_0 == attached(*info, result->Ok_0.buf)
            &&& owns_header(old(resources)@, result->Ok_0)
            &&& final(resources)@ == retained(old(resources)@, result->Ok_0)
        },
{
    match check_refusal(info, resources) {
        Some(e) => {
            return Err(e);
        },
        None => {},
    }
    let answer = client.attach(info.data_descriptor.segment);
    let ghost answered = answer;
    let segment = match answer {
        Ok(segment) => segment,
        Err(e) => {
            proof {
                assert(after_attach(answered, *info, old(resources)@, resources@, Err(e)));
            }
            return Err(e);
        },
    };
    let mapped = segment.map(info.data_descriptor.chunk);
    let ghost was_mapped = mapped;
    let data = match mapped {
        Ok(data) => data,
        Err(e) => {
            proof {
                assert(after_map(was_mapped, *info, old(resources)@, resources@, Err(e)));
                assert(after_attach(answered, *info, old(resources)@, resources@, Err(e)));
            }
            return Err(e);
        },
    };
    let buffer = attach_mapped(info, data, resources);
    proof {
        assert(after_map(was_mapped, *info, old(resources)@, resources@, Ok(buffer)));
        assert(after_attach(answered, *info, old(resources)@, resources@, Ok(buffer)));
    }
    Ok(buffer)
}

} // verus!
