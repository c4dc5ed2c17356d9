//! The builders through which a provider is made and buffers are asked
//! for.

use vstd::prelude::*;
use std::marker::PhantomData;
use crate::backend::SharedMemoryProviderBackend;
use crate::buffer::BufAllocResult;
use crate::common::{ZError, ZResult};
use crate::policy::{AllocPolicy, JustAlloc};
use crate::provider::SharedMemoryProvider;
use crate::resources::SharedResources;
use crate::types::{AllocAlignment, LimitedAlignment, MemoryLayout};

verus! {

/// Starts a layout for buffers of a provider.
pub struct AllocLayoutBuilder<'a, const ID: u32, Backend: SharedMemoryProviderBackend> {
    pub provider: &'a SharedMemoryProvider<ID, Backend>,
}

impl<'a, const ID: u32, Backend: SharedMemoryProviderBackend> AllocLayoutBuilder<'a, ID, Backend> {
    /// Sets the number of bytes of the buffers.
    pub fn size(self, size: usize) -> (builder: AllocLayoutSizedBuilder<'a, ID, Backend>)
        ensures
            builder.provider == self.provider,
            builder.size == size,
    {
        AllocLayoutSizedBuilder { provider: self.provider, size }
    }
}

/// A layout whose size is set.
pub struct AllocLayoutSizedBuilder<'a, const ID: u32, Backend: SharedMemoryProviderBackend> {
    pub provider: &'a SharedMemoryProvider<ID, Backend>,
    pub size: usize,
}

impl<'a, const ID: u32, Backend: SharedMemoryProviderBackend> AllocLayoutSizedBuilder<
    'a,
    ID,
    Backend,
> {
    /// Sets the alignment of the buffers.
    pub fn alignment(self, alignment: AllocAlignment) -> (builder: AllocLayoutAlignedBuilder<
        'a,
        ID,
        Backend,
    >)
        ensures
            builder.provider == self.provider,
            builder.size == self.size,
            builder.alignment == alignment,
    {
        AllocLayoutAlignedBuilder { provider: self.provider, size: self.size, alignment }
    }

    /// The layout with the default alignment.
    pub fn res(self) -> (result: ZResult<AllocLayout<ID, Backend>>)
        requires
            self.provider.wf(),
        ensures
            result == layout_result::<ID, Backend>(
                self.size,
                AllocAlignment::new_spec(0),
                *self.provider,
            ),
    {
        AllocLayout::new(self.size, AllocAlignment::default(), self.provider)
    }
}

/// A layout whose size and alignment are set.
pub struct AllocLayoutAlignedBuilder<'a, const ID: u32, Backend: SharedMemoryProviderBackend> {
    pub provider: &'a SharedMemoryProvider<ID, Backend>,
    pub size: usize,
    pub alignment: AllocAlignment,
}

impl<'a, const ID: u32, Backend: SharedMemoryProviderBackend> AllocLayoutAlignedBuilder<
    'a,
    ID,
    Backend,
> {
    pub fn res(self) -> (result: ZResult<AllocLayout<ID, Backend>>)
        requires
            self.provider.wf(),
        ensures
            result == layout_result::<ID, Backend>(self.size, self.alignment, *self.provider),
    {
        AllocLayout::new(self.size, self.alignment, self.provider)
    }
}

/// The layout of buffers of `size` bytes aligned to `alignment`, for
/// `provider`: refused with `BadLayout` where the size is not a multiple of
/// the alignment, else with `BadAlignment` where the alignment is above what
/// the backend honors; else it is what the backend makes of it.
pub open spec fn layout_result<const ID: u32, Backend: SharedMemoryProviderBackend>(
    size: usize,
    alignment: AllocAlignment,
    provider: SharedMemoryProvider<ID, Backend>,
) -> ZResult<AllocLayout<ID, Backend>> {
    if size as nat % alignment.value() != 0 {
        Err(ZError::BadLayout)
    } else if alignment.exponent() > provider@.backend.max_align_spec().exponent() {
        Err(ZError::BadAlignment)
    } else {
        match provider@.backend.layout_for_spec(MemoryLayout::of(size, alignment)) {
            Ok(provider_layout) => Ok(
                AllocLayout { size, provider_layout, _phantom: PhantomData },
            ),
            Err(e) => Err(e),
        }
    }
}

/// A layout that a provider accepted: the size that was asked for, and the
/// layout of the chunk that the backend will allocate for it.
pub struct AllocLayout<const ID: u32, Backend: SharedMemoryProviderBackend> {
    pub size: usize,
    pub provider_layout: MemoryLayout,
    pub _phantom: PhantomData<Backend>,
}

impl<const ID: u32, Backend: SharedMemoryProviderBackend> AllocLayout<ID, Backend> {
    /// Starts the allocation of a buffer of this layout.
    pub fn allocate<'a>(&'a self) -> (builder: AllocBuilder<'a, ID, Backend, JustAlloc>)
        ensures
            builder.layout == self,
    {
        AllocBuilder { layout: self, _phantom: PhantomData }
    }

    pub fn new(
        size: usize,
        alignment: AllocAlignment,
        provider: &SharedMemoryProvider<ID, Backend>,
    ) -> (result: ZResult<Self>)
        requires
            provider.wf(),
        ensures
            result == layout_result::<ID, Backend>(size, alignment, *provider),
    {
        let layout = match MemoryLayout::new(size, alignment) {
            Ok(layout) => layout,
            Err(e) => {
                return Err(e);
            },
        };
        proof {
            MemoryLayout::lemma_of(size, alignment);
            layout.lemma_same(MemoryLayout::of(size, alignment));
        }
        if alignment.get_exponent() > provider.max_align().get_exponent() {
            return Err(ZError::BadAlignment);
        }
        match provider.layout_for(layout) {
            Ok(provider_layout) => Ok(Self { size, provider_layout, _phantom: PhantomData }),
            Err(e) => Err(e),
        }
    }
}

/// An allocation that waits for its policy.
pub struct AllocBuilder<'a, const ID: u32, Backend: SharedMemoryProviderBackend, Policy = JustAlloc> {
    pub layout: &'a AllocLayout<ID, Backend>,
    pub _phantom: PhantomData<Policy>,
}

impl<'a, const ID: u32, Backend: SharedMemoryProviderBackend, Policy> AllocBuilder<
    'a,
    ID,
    Backend,
    Policy,
> {
    /// Sets the policy that gets the chunk from the backend.
    pub fn with_policy<OtherPolicy>(self) -> (builder: AllocBuilder<'a, ID, Backend, OtherPolicy>)
        ensures
            builder.layout == self.layout,
    {
        AllocBuilder { layout: self.layout, _phantom: PhantomData }
    }

    /// Allocates the buffer from `provider` with the policy of the
    /// builder.
    pub fn res(
        self,
        provider: &mut SharedMemoryProvider<ID, Backend>,
        resources: &mut SharedResources,
    ) -> (result: BufAllocResult) where Policy: AllocPolicy<Backend>
        requires
            old(provider).wf(),
            old(resources).wf(),
        ensures
            final(provider).wf(),
            final(resources).wf(),
            SharedMemoryProvider::<ID, Backend>::alloc_inner_post::<Policy>(
                old(provider)@,
                old(resources)@,
                self.layout.size,
                self.layout.provider_layout,
                final(provider)@,
                final(resources)@,
                result,
            ),
            old(provider)@.kept_by(final(provider)@),
    {
        provider.alloc_inner::<Policy>(resources, self.layout.size, &self.layout.provider_layout)
    }
}

/// Starts a provider.
pub struct SharedMemoryProviderBuilder;

impl SharedMemoryProviderBuilder {
    /// Starts a provider.
    pub fn builder() -> (builder: Self) {
        Self
    }

    /// Sets the protocol id that the buffers of the provider carry.
    pub fn protocol_id<const ID: u32>(self) -> (builder: SharedMemoryProviderBuilderID<ID>) {
        SharedMemoryProviderBuilderID::<ID> {  }
    }
}

/// A provider whose protocol id is set.
pub struct SharedMemoryProviderBuilderID<const ID: u32> {}

impl<const ID: u32> SharedMemoryProviderBuilderID<ID> {
    /// Sets the backend that the provider allocates from.
    pub fn backend<Backend: SharedMemoryProviderBackend>(self, backend: Backend) -> (builder:
        SharedMemoryProviderBuilderBackendID<ID, Backend>)
        ensures
            builder.backend == backend,
    {
        SharedMemoryProviderBuilderBackendID { backend }
    }
}

/// A provider whose protocol id and backend are set.
pub struct SharedMemoryProviderBuilderBackendID<
    const ID: u32,
    Backend: SharedMemoryProviderBackend,
> {
    pub backend: Backend,
}

impl<const ID: u32, Backend: SharedMemoryProviderBackend> SharedMemoryProviderBuilderBackendID<
    ID,
    Backend,
> {
    /// The provider: it owns the backend, and no chunk is in use.
    pub fn res(self) -> (provider: SharedMemoryProvider<ID, Backend>)
        requires
            self.backend.wf(),
        ensures
            provider.wf(),
            provider@.backend == self.backend,
            provider@.busy.len() == 0,
            provider@.unwrapped() == self.backend.outstanding(),
    {
        SharedMemoryProvider::<ID, Backend>::new(self.backend)
    }
}

} // verus!
