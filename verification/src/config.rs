use vstd::prelude::*;
use crate::error::AllocError;

verus! {

/// The type of memory pool to use.
#[derive(Debug, Clone, Copy, PartialEq, Eq, Structural)]
pub enum PoolType {
    /// Every allocation is a separate page.
    ExclusivePages,
    /// Each allocation is a slice of a bigger page.
    SlicedPages {
        /// The maximum size of a slice to allocate in the pool.
        max_slice_size: u64,
    },
}

/// Options to create a memory pool.
#[derive(Debug, Clone, Copy)]
pub struct MemoryPoolOptions {
    /// What kind of pool to use.
    pub pool_type: PoolType,
    /// The amount of bytes used for each chunk in the memory pool.
    pub page_size: u64,
    /// The number of chunks allocated directly at creation.
    pub chunk_num_prealloc: u64,
    /// Number of allocations after which an unused page is given back to the
    /// device. `None` keeps pages of a sliced pool for ever.
    pub dealloc_period: Option<u64>,
}

/// High level configuration of memory management.
#[derive(Debug, Clone)]
pub enum MemoryConfiguration {
    /// The default preset: a ladder of sliced pools and an exclusive pool
    /// for what is larger than all of them.
    SubSlices,
    /// Preset using only exclusive pages.
    ExclusivePages,
    /// Customize each pool individually.
    Custom(Vec<MemoryPoolOptions>),
}

/// Properties of the device related to allocation.
#[derive(Debug, Clone, Copy, PartialEq, Eq, Structural)]
pub struct MemoryDeviceProperties {
    /// The maximum number of bytes that can be allocated in one go.
    pub max_page_size: u64,
    /// The required memory offset alignment in bytes.
    pub alignment: u64,
}

/// Properties of the device related to the accelerator hardware.
#[derive(Debug, Clone, Copy, PartialEq, Eq, Structural)]
pub struct HardwareProperties {
    /// The minimum size of a plane on this device.
    pub plane_size_min: u32,
    /// The maximum size of a plane on this device.
    pub plane_size_max: u32,
    /// Minimum number of bindings for a kernel that can be used at once.
    pub max_bindings: u32,
}

impl Default for MemoryConfiguration {
    fn default() -> (r: Self)
        ensures
            r == MemoryConfiguration::SubSlices,
    {
        MemoryConfiguration::SubSlices
    }
}

/// Page size of the smallest pool of the default ladder.
pub const SMALL_PAGE: u64 = 2097152;

/// Page size of the middle pool of the default ladder.
pub const MEDIUM_PAGE: u64 = 33554432;

/// Page size of the largest sliced pool of the default ladder.
pub const LARGE_PAGE: u64 = 536870912;

/// Allocations after which the presets give an idle page back.
pub const PRESET_DEALLOC_PERIOD: u64 = 1000;

impl MemoryPoolOptions {
    /// The options meet the rules of a pool on a device with these
    /// properties.
    pub open spec fn valid_for(self, props: MemoryDeviceProperties) -> bool {
        &&& props.alignment > 0
        &&& self.page_size > 0
        &&& self.page_size <= props.max_page_size
        &&& match self.pool_type {
            PoolType::ExclusivePages => true,
            PoolType::SlicedPages { max_slice_size } => max_slice_size <= self.page_size,
        }
    }

    /// Tests the options against the device's limits.
    pub fn validate(&self, props: &MemoryDeviceProperties) -> (r: Result<(), AllocError>)
        ensures
            r.is_ok() <==> self.valid_for(*props),
            r.is_err() ==> r == Err::<(), AllocError>(AllocError::InvalidConfiguration),
    {
        let slice_ok = match self.pool_type {
            PoolType::ExclusivePages => true,
            PoolType::SlicedPages { max_slice_size } => max_slice_size <= self.page_size,
        };
        if props.alignment > 0 && self.page_size > 0 && self.page_size <= props.max_page_size
            && slice_ok {
            Ok(())
        } else {
            Err(AllocError::InvalidConfiguration)
        }
    }

    /// A pool with these options serves requests of `size` bytes.
    pub open spec fn covers(self, size: u64) -> bool {
        match self.pool_type {
            PoolType::ExclusivePages => true,
            PoolType::SlicedPages { max_slice_size } => size <= max_slice_size,
        }
    }
}

/// The sliced pool of the default ladder with pages of `page` bytes: its
/// slices are at most a sixteenth of a page.
pub open spec fn rung(page: u64) -> MemoryPoolOptions {
    MemoryPoolOptions {
        pool_type: PoolType::SlicedPages { max_slice_size: page / 16 },
        page_size: page,
        chunk_num_prealloc: 0,
        dealloc_period: Some(PRESET_DEALLOC_PERIOD),
    }
}

/// The exclusive pool that the presets end with.
pub open spec fn overflow_pool(props: MemoryDeviceProperties) -> MemoryPoolOptions {
    MemoryPoolOptions {
        pool_type: PoolType::ExclusivePages,
        page_size: props.max_page_size,
        chunk_num_prealloc: 0,
        dealloc_period: None,
    }
}

/// The rungs, smallest first, whose page the device can allocate.
pub open spec fn ladder(props: MemoryDeviceProperties) -> Seq<MemoryPoolOptions> {
    let a = if SMALL_PAGE <= props.max_page_size { seq![rung(SMALL_PAGE)] } else { seq![] };
    let b = if MEDIUM_PAGE <= props.max_page_size { seq![rung(MEDIUM_PAGE)] } else { seq![] };
    let c = if LARGE_PAGE <= props.max_page_size { seq![rung(LARGE_PAGE)] } else { seq![] };
    a + b + c
}

impl MemoryConfiguration {
    /// The pools that the configuration asks for, in the order in which
    /// requests are offered to them.
    pub open spec fn pools(self, props: MemoryDeviceProperties) -> Seq<MemoryPoolOptions> {
        match self {
            MemoryConfiguration::SubSlices => ladder(props).push(overflow_pool(props)),
            MemoryConfiguration::ExclusivePages => seq![overflow_pool(props)],
            MemoryConfiguration::Custom(list) => list@,
        }
    }

    /// Writes the configuration out as one entry of options per pool.
    pub fn pool_options(&self, props: &MemoryDeviceProperties) -> (r: Vec<MemoryPoolOptions>)
        ensures
            r@ == self.pools(*props),
    {
        let overflow = MemoryPoolOptions {
            pool_type: PoolType::ExclusivePages,
            page_size: props.max_page_size,
            chunk_num_prealloc: 0,
            dealloc_period: None,
        };
        match self {
            MemoryConfiguration::SubSlices => {
                let mut out: Vec<MemoryPoolOptions> = Vec::new();
                let pages: [u64; 3] = [SMALL_PAGE, MEDIUM_PAGE, LARGE_PAGE];
                if pages[0] <= props.max_page_size {
                    out.push(make_rung(pages[0]));
                }
                if pages[1] <= props.max_page_size {
                    out.push(make_rung(pages[1]));
                }
                if pages[2] <= props.max_page_size {
                    out.push(make_rung(pages[2]));
                }
                assert(out@ =~= ladder(*props));
                out.push(overflow);
                out
            },
            MemoryConfiguration::ExclusivePages => {
                let mut out: Vec<MemoryPoolOptions> = Vec::new();
                out.push(overflow);
                assert(out@ =~= seq![overflow_pool(*props)]);
                out
            },
            MemoryConfiguration::Custom(list) => {
                let mut out: Vec<MemoryPoolOptions> = Vec::new();
                let mut i: usize = 0;
                while i < list.len()
                    invariant
                        i <= list.len(),
                        out@ == list@.subrange(0, i as int),
                    decreases list.len() - i,
                {
                    out.push(list[i]);
                    i += 1;
                    assert(out@ =~= list@.subrange(0, i as int));
                }
                assert(list@.subrange(0, list@.len() as int) =~= list@);
                out
            },
        }
    }
}

fn make_rung(page: u64) -> (r: MemoryPoolOptions)
    ensures
        r == rung(page),
{
    MemoryPoolOptions {
        pool_type: PoolType::SlicedPages { max_slice_size: page / 16 },
        page_size: page,
        chunk_num_prealloc: 0,
        dealloc_period: Some(PRESET_DEALLOC_PERIOD),
    }
}

} // verus!
