use core::alloc::Layout;
use core::mem::MaybeUninit;
use linked_list_allocator::Heap as FirstFitHeap;
use vstd::prelude::*;

verus! {

#[verifier::external_type_specification]
#[verifier::external_body]
pub struct ExFirstFitHeap(FirstFitHeap);

/// Number of bytes that a first-fit heap hands out allocations from (`Heap::size`).
pub uninterp spec fn heap_size(h: FirstFitHeap) -> nat;

/// Number of bytes of a first-fit heap that are handed out and not given back (`Heap::used`).
pub uninterp spec fn heap_used(h: FirstFitHeap) -> nat;

/// Relies on `linked_list_allocator::Heap::empty`: a heap with no memory, of size zero, with
/// nothing handed out.
pub assume_specification[ FirstFitHeap::empty ]() -> (r: FirstFitHeap)
    ensures
        heap_size(r) == 0,
        heap_used(r) == 0,
;

/// Smallest region a heap can be built on: room for the metadata of one free block,
/// whatever the alignment of the region.
pub const MIN_REGION: usize = 24;

/// Relies on `linked_list_allocator::Heap::from_slice`: the heap hands out memory from `mem`
/// alone, so its size is at most the length of `mem`; it loses less than one word to aligning
/// the start of the region and less than one word to rounding the size down, at most 14 bytes
/// in all. The whole of it is one free block, with nothing handed out. It panics on a region
/// too small for its metadata, which `MIN_REGION` rules out.
#[verifier::external_body]
fn heap_from_slice(mem: &'static mut [MaybeUninit<u8>]) -> (r: FirstFitHeap)
    requires
        old(mem)@.len() >= MIN_REGION,
    ensures
        heap_size(r) <= old(mem)@.len(),
        heap_size(r) + 14 >= old(mem)@.len(),
        heap_used(r) == 0,
{
    FirstFitHeap::from_slice(mem)
}

/// Relies on `core::alloc::Layout::from_size_align`, which succeeds when `align` is a power
/// of two and `size` rounded up to `align` does not exceed `isize::MAX`, and on
/// `linked_list_allocator::Heap::allocate_first_fit`, which fails when no free block holds
/// `size` bytes; no free block is larger than the heap, the heap keeps its size, and a failed
/// search changes nothing. Blocks are cut without leaving gaps and given back blocks merge with
/// their free neighbours, so a heap with nothing handed out is one free block of the heap's
/// size; such a block holds the request when it leaves room for the request rounded up to a
/// word (at least two words), for a front gap of two words plus the alignment, and for a
/// trailing free block of two words. The block handed out starts at a multiple of `align` and is
/// returned as its (non-null) address, with its provenance exposed.
#[verifier::external_body]
fn allocate_first_fit(heap: &mut FirstFitHeap, size: usize, align: usize) -> (r: Option<usize>)
    requires
        is_power_of_two(align as nat),
        size as int + align as int <= isize::MAX,
    ensures
        heap_size(*final(heap)) == heap_size(*old(heap)),
        size > heap_size(*old(heap)) ==> r is None,
        r is None ==> *final(heap) == *old(heap),
        heap_used(*old(heap)) == 0 && size as int + align as int + 48 <= heap_size(*old(heap)) ==> r is Some,
        r matches Some(a) ==> a != 0 && a % align == 0,
{
    match Layout::from_size_align(size, align) {
        Ok(layout) => match heap.allocate_first_fit(layout) {
            Ok(p) => Some(p.as_ptr().expose_provenance()),
            Err(()) => None,
        },
        Err(_) => None,
    }
}

/// Whether `n` is a power of two.
pub open spec fn is_power_of_two(n: nat) -> bool
    decreases n,
{
    if n == 1 {
        true
    } else if n == 0 || n % 2 == 1 {
        false
    } else {
        is_power_of_two(n / 2)
    }
}


/// Exclusive access to a value, guarded by the interrupt-enable register.
///
/// The register is passed in as `ie`. Locking saves its value and clears it, so that no
/// interrupt handler runs while the value is touched; unlocking restores the saved value
/// instead of enabling interrupts unconditionally, so critical sections nest correctly.
pub struct Mutex<T> {
    inner: T,
    saved: Option<u16>,
}

impl<T> Mutex<T> {
    pub closed spec fn value(&self) -> T {
        self.inner
    }

    /// The register value saved by `lock`, while the mutex is locked.
    pub closed spec fn saved(&self) -> Option<u16> {
        self.saved
    }

    pub open spec fn is_locked(&self) -> bool {
        self.saved() is Some
    }

    pub fn new(value: T) -> (r: Self)
        ensures
            r.value() == value,
            !r.is_locked(),
    {
        Mutex { inner: value, saved: None }
    }

    /// Saves the interrupt-enable register and disables all interrupts.
    pub fn lock(&mut self, ie: &mut u16)
        requires
            !old(self).is_locked(),
        ensures
            final(self).value() == old(self).value(),
            final(self).saved() == Some(*old(ie)),
            *final(ie) == 0,
    {
        self.saved = Some(*ie);
        *ie = 0;
    }

    /// Restores the interrupt-enable register to the value saved by `lock`.
    pub fn unlock(&mut self, ie: &mut u16)
        requires
            old(self).is_locked(),
        ensures
            final(self).value() == old(self).value(),
            !final(self).is_locked(),
            *final(ie) == old(self).saved()->Some_0,
    {
        match self.saved {
            Some(v) => {
                *ie = v;
            },
            None => {},
        }
        self.saved = None;
    }

    /// The guarded value, reachable only while the mutex is locked.
    pub fn get_mut(&mut self) -> (r: &mut T)
        requires
            old(self).is_locked(),
        ensures
            *r == old(self).value(),
            final(self).value() == *final(r),
            final(self).saved() == old(self).saved(),
    {
        &mut self.inner
    }
}

/// The memory arena: a first-fit heap over one region, guarded by a `Mutex`, that is
/// initialized once before it hands out memory.
///
/// Every operation runs between `lock` and `unlock`. `lock` hands back the value to write to the
/// interrupt-enable register (all interrupts off) and `unlock` the value it had before, so the
/// caller masks interrupts for the whole operation and restores them afterwards.
pub struct Heap {
    heap: Mutex<FirstFitHeap>,
    initialized: bool,
}

impl Heap {
    /// The mutex that guards the first-fit heap.
    pub closed spec fn guard(&self) -> Mutex<FirstFitHeap> {
        self.heap
    }

    /// Number of bytes the arena hands out allocations from; zero before `init`.
    pub open spec fn capacity(&self) -> nat {
        heap_size(self.guard().value())
    }

    /// Number of bytes handed out and not given back.
    pub open spec fn used(&self) -> nat {
        heap_used(self.guard().value())
    }

    pub closed spec fn is_initialized(&self) -> bool {
        self.initialized
    }

    pub open spec fn is_locked(&self) -> bool {
        self.guard().is_locked()
    }

    /// Between operations the arena is unlocked.
    pub open spec fn wf(&self) -> bool {
        !self.is_locked()
    }

    /// An arena with no memory, waiting for `init`.
    pub fn empty() -> (r: Heap)
        ensures
            r.wf(),
            !r.is_initialized(),
            r.capacity() == 0,
            r.used() == 0,
    {
        Heap { heap: Mutex::new(FirstFitHeap::empty()), initialized: false }
    }

    /// Saves the interrupt-enable register `ie` and clears it: the caller writes the new
    /// value of `ie` to the register before the operation.
    pub fn lock(&mut self, ie: &mut u16)
        requires
            old(self).wf(),
        ensures
            final(self).is_locked(),
            final(self).guard().value() == old(self).guard().value(),
            final(self).guard().saved() == Some(*old(ie)),
            final(self).is_initialized() == old(self).is_initialized(),
            *final(ie) == 0,
    {
        self.heap.lock(ie);
    }

    /// Sets `ie` back to the value saved by `lock`: the caller writes it to the register after
    /// the operation, which restores the mask of the enclosing context.
    pub fn unlock(&mut self, ie: &mut u16)
        requires
            old(self).is_locked(),
        ensures
            final(self).wf(),
            final(self).guard().value() == old(self).guard().value(),
            final(self).is_initialized() == old(self).is_initialized(),
            *final(ie) == old(self).guard().saved()->Some_0,
    {
        self.heap.unlock(ie);
    }

    /// Hands the region `mem` to the arena: all of it but at most 14 bytes lost to alignment
    /// becomes free memory, with nothing handed out. Returns `false`, and changes nothing,
    /// when the arena was already initialized.
    pub fn init(&mut self, mem: &'static mut [MaybeUninit<u8>]) -> (r: bool)
        requires
            old(self).is_locked(),
            old(mem)@.len() >= MIN_REGION,
        ensures
            final(self).is_locked(),
            final(self).guard().saved() == old(self).guard().saved(),
            r == !old(self).is_initialized(),
            final(self).is_initialized(),
            r ==> final(self).capacity() <= old(mem)@.len(),
            r ==> final(self).capacity() + 14 >= old(mem)@.len(),
            r ==> final(self).used() == 0,
            !r ==> final(self).guard() == old(self).guard(),
    {
        if self.initialized {
            return false;
        }
        let h = self.heap.get_mut();
        *h = heap_from_slice(mem);
        self.initialized = true;
        true
    }

    /// Allocates `size` bytes aligned to `align` by first fit, and returns the block's
    /// address, a multiple of `align`. Returns `None` when no free block fits, and always when
    /// `size` exceeds the arena's capacity or the arena is not initialized; a failed request
    /// leaves the arena as it was. With nothing handed out, a request succeeds when the arena
    /// has room for it plus its alignment and 48 bytes of bookkeeping.
    pub fn allocate(&mut self, size: usize, align: usize) -> (r: Option<usize>)
        requires
            old(self).is_locked(),
            is_power_of_two(align as nat),
            size as int + align as int <= isize::MAX,
        ensures
            final(self).is_locked(),
            final(self).guard().saved() == old(self).guard().saved(),
            final(self).capacity() == old(self).capacity(),
            final(self).is_initialized() == old(self).is_initialized(),
            size > old(self).capacity() ==> r is None,
            !old(self).is_initialized() ==> r is None,
            r is None ==> final(self).guard() == old(self).guard(),
            old(self).is_initialized() && old(self).used() == 0 && size as int + align as int + 48
                <= old(self).capacity() ==> r is Some,
            r matches Some(a) ==> a != 0 && a % align == 0,
    {
        if !self.initialized {
            return None;
        }
        let h = self.heap.get_mut();
        allocate_first_fit(h, size, align)
    }

    /// The first-fit heap itself, while the arena is locked, for operations the arena does not
    /// offer, such as giving a block back.
    pub fn heap_mut(&mut self) -> (r: &mut FirstFitHeap)
        requires
            old(self).is_locked(),
        ensures
            *r == old(self).guard().value(),
            final(self).guard().value() == *final(r),
            final(self).guard().saved() == old(self).guard().saved(),
            final(self).is_initialized() == old(self).is_initialized(),
    {
        self.heap.get_mut()
    }
}

} // verus!
