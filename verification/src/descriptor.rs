//! Fixed-shape, slot-indexed bindless descriptor tables with a packed
//! payload blob.

use vstd::prelude::*;
use crate::handle::Handle;

verus! {

/// What a slot of a descriptor table may hold.
#[derive(Clone, Copy, PartialEq, Eq, Structural, Debug)]
pub enum SlotKind {
    Texture,
    Sampler,
    DataBlob,
}

/// Programmer errors in descriptor-table construction. They fail fast and
/// locally: a wrong slot would corrupt GPU-visible state silently.
#[derive(Clone, Copy, PartialEq, Eq, Structural, Debug)]
pub enum SlotError {
    SlotOutOfRange,
    SlotKindMismatch,
}

/// Byte `k` (little-endian) of a 32-bit word.
pub open spec fn word_byte(w: u32, k: int) -> u8 {
    if k == 0 {
        (w & 0xff) as u8
    } else if k == 1 {
        ((w >> 8) & 0xff) as u8
    } else if k == 2 {
        ((w >> 16) & 0xff) as u8
    } else {
        ((w >> 24) & 0xff) as u8
    }
}

/// The packed little-endian byte image of a sequence of 32-bit words. This
/// is the exact shader-visible layout: four bytes per declared field, in
/// declaration order, least-significant byte first.
pub open spec fn spec_pack(ws: Seq<u32>) -> Seq<u8> {
    Seq::new(ws.len() * 4, |i: int| word_byte(ws[i / 4], i % 4))
}

/// The 32-bit word at field `i` of a packed blob.
pub open spec fn spec_word_at(bs: Seq<u8>, i: int) -> u32 {
    (bs[4 * i] as u32) | ((bs[4 * i + 1] as u32) << 8) | ((bs[4 * i + 2] as u32) << 16) | ((bs[4 * i
        + 3] as u32) << 24)
}

/// Round trip: projecting words into the packed blob and reading a declared
/// field back yields the source word exactly.
pub proof fn lemma_payload_word_roundtrip(ws: Seq<u32>, i: int)
    requires
        0 <= i < ws.len(),
    ensures
        spec_word_at(spec_pack(ws), i) == ws[i],
{
    let w = ws[i];
    assert((4 * i) / 4 == i && (4 * i) % 4 == 0) by (nonlinear_arith);
    assert((4 * i + 1) / 4 == i && (4 * i + 1) % 4 == 1) by (nonlinear_arith);
    assert((4 * i + 2) / 4 == i && (4 * i + 2) % 4 == 2) by (nonlinear_arith);
    assert((4 * i + 3) / 4 == i && (4 * i + 3) % 4 == 3) by (nonlinear_arith);
    assert(((w & 0xff) as u8 as u32) | ((((w >> 8) & 0xff) as u8 as u32) << 8) | ((((w >> 16)
        & 0xff) as u8 as u32) << 16) | ((((w >> 24) & 0xff) as u8 as u32) << 24) == w)
        by (bit_vector);
}

/// The contract a material-extension type declares once at registration
/// time: a contiguous slot range starting at `base_slot_index`, the kind of
/// each slot in that range, and the number of 32-bit payload fields of its
/// data blob.
pub struct ExtensionLayout {
    base_slot_index: u16,
    kinds: Vec<SlotKind>,
    payload_words: u16,
}

impl ExtensionLayout {
    /// First slot index of the reserved range.
    pub closed spec fn spec_base(&self) -> u16 {
        self.base_slot_index
    }

    /// The declared kind of each slot in the range, in order.
    pub closed spec fn spec_kinds(&self) -> Seq<SlotKind> {
        self.kinds@
    }

    /// Number of 32-bit fields of the payload blob.
    pub closed spec fn spec_payload_words(&self) -> u16 {
        self.payload_words
    }

    /// The whole reserved range lies within the 16-bit slot space.
    pub open spec fn wf(&self) -> bool {
        self.spec_base() + self.spec_kinds().len() <= 0x10000
    }

    /// Whether an absolute slot index falls into the reserved range.
    pub open spec fn slot_in_range(&self, slot: u16) -> bool {
        self.spec_base() <= slot < self.spec_base() + self.spec_kinds().len()
    }

    /// Declares and validates a layout once, at startup. Registration fails
    /// with `SlotOutOfRange` exactly when the requested range does not fit
    /// into the 16-bit slot space.
    pub fn register(base_slot_index: u16, kinds: Vec<SlotKind>, payload_words: u16) -> (r: Result<
        ExtensionLayout,
        SlotError,
    >)
        ensures
            r is Ok <==> base_slot_index + kinds@.len() <= 0x10000,
            r matches Err(e) ==> e == SlotError::SlotOutOfRange,
            r matches Ok(l) ==> l.spec_base() == base_slot_index && l.spec_kinds() == kinds@
                && l.spec_payload_words() == payload_words && l.wf(),
    {
        if kinds.len() > 0x10000 - (base_slot_index as usize) {
            return Err(SlotError::SlotOutOfRange);
        }
        Ok(ExtensionLayout { base_slot_index, kinds, payload_words })
    }

    /// First slot index of the reserved range.
    pub fn base_slot_index(&self) -> (b: u16)
        ensures
            b == self.spec_base(),
    {
        self.base_slot_index
    }

    /// Number of slots in the reserved range.
    pub fn slot_count(&self) -> (n: usize)
        ensures
            n == self.spec_kinds().len(),
    {
        self.kinds.len()
    }

    /// Number of 32-bit fields of the payload blob.
    pub fn payload_words(&self) -> (n: u16)
        ensures
            n == self.spec_payload_words(),
    {
        self.payload_words
    }

    /// Byte size of the payload blob consumed by the binding layer.
    pub fn blob_byte_size(&self) -> (n: usize)
        ensures
            n == self.spec_payload_words() * 4,
    {
        (self.payload_words as usize) * 4
    }

    /// The declared kind of an absolute slot index.
    pub fn kind_of_slot(&self, slot_index: u16) -> (r: Result<SlotKind, SlotError>)
        requires
            self.wf(),
        ensures
            r is Ok <==> self.slot_in_range(slot_index),
            r matches Err(e) ==> e == SlotError::SlotOutOfRange,
            r matches Ok(k) ==> k == self.spec_kinds()[slot_index - self.spec_base()],
    {
        if slot_index < self.base_slot_index {
            return Err(SlotError::SlotOutOfRange);
        }
        let off = (slot_index - self.base_slot_index) as usize;
        if off >= self.kinds.len() {
            return Err(SlotError::SlotOutOfRange);
        }
        Ok(self.kinds[off])
    }
}

/// A fixed-capacity, slot-indexed table describing one material variant:
/// one optional resource binding per reserved slot plus one packed payload
/// blob. The table is fixed-shape even when sparse — an absent channel is an
/// explicit unbound sentinel, never an omission — because the consuming
/// shader addresses slots positionally.
pub struct BindlessDescriptorTable {
    layout: ExtensionLayout,
    bindings: Vec<Option<Handle>>,
    payload: Vec<u32>,
}

impl BindlessDescriptorTable {
    /// The layout the table was allocated against.
    pub closed spec fn spec_layout(&self) -> ExtensionLayout {
        self.layout
    }

    /// The binding of each slot of the reserved range, in order.
    pub closed spec fn spec_bindings(&self) -> Seq<Option<Handle>> {
        self.bindings@
    }

    /// The projected payload fields.
    pub closed spec fn spec_payload(&self) -> Seq<u32> {
        self.payload@
    }

    /// The table's shape matches its layout exactly.
    pub open spec fn wf(&self) -> bool {
        &&& self.spec_layout().wf()
        &&& self.spec_bindings().len() == self.spec_layout().spec_kinds().len()
        &&& self.spec_payload().len() == self.spec_layout().spec_payload_words()
    }

    /// Allocates a table for a registered layout: every slot starts
    /// explicitly unbound and every payload field starts zeroed.
    pub fn allocate(layout: ExtensionLayout) -> (t: BindlessDescriptorTable)
        requires
            layout.wf(),
        ensures
            t.wf(),
            t.spec_layout() == layout,
            t.spec_bindings().len() == layout.spec_kinds().len(),
            forall|i: int|
                0 <= i < layout.spec_kinds().len() ==> (#[trigger] t.spec_bindings()[i]) is None,
            t.spec_payload().len() == layout.spec_payload_words(),
            forall|i: int|
                0 <= i < layout.spec_payload_words() ==> (#[trigger] t.spec_payload()[i]) == 0,
    {
        let slot_count = layout.kinds.len();
        let mut bindings: Vec<Option<Handle>> = Vec::new();
        let mut i: usize = 0;
        while i < slot_count
            invariant
                i <= slot_count,
                bindings@.len() == i,
                forall|j: int| 0 <= j < i ==> (#[trigger] bindings@[j]) is None,
            decreases slot_count - i,
        {
            bindings.push(None);
            i = i + 1;
        }
        let word_count = layout.payload_words as usize;
        let mut payload: Vec<u32> = Vec::new();
        let mut k: usize = 0;
        while k < word_count
            invariant
                k <= word_count,
                payload@.len() == k,
                forall|j: int| 0 <= j < k ==> (#[trigger] payload@[j]) == 0,
            decreases word_count - k,
        {
            payload.push(0);
            k = k + 1;
        }
        BindlessDescriptorTable { layout, bindings, payload }
    }

    /// Binds a resource to an absolute slot index.
    ///
    /// Outside the reserved range the call fails with `SlotOutOfRange` and
    /// the table is untouched; on the data-blob slot it fails with
    /// `SlotKindMismatch`, likewise without mutating anything.
    pub fn bind(&mut self, slot_index: u16, resource: Handle) -> (r: Result<(), SlotError>)
        requires
            old(self).wf(),
        ensures
            final(self).wf(),
            final(self).spec_layout() == old(self).spec_layout(),
            final(self).spec_payload() == old(self).spec_payload(),
            !old(self).spec_layout().slot_in_range(slot_index) ==> (r matches Err(e) && e
                == SlotError::SlotOutOfRange && *final(self) == *old(self)),
            old(self).spec_layout().slot_in_range(slot_index) && old(self).spec_layout().spec_kinds()[slot_index
                - old(self).spec_layout().spec_base()] is DataBlob ==> (r matches Err(e) && e
                == SlotError::SlotKindMismatch && *final(self) == *old(self)),
            old(self).spec_layout().slot_in_range(slot_index) && !(old(
                self,
            ).spec_layout().spec_kinds()[slot_index - old(self).spec_layout().spec_base()]
                is DataBlob) ==> r is Ok && final(self).spec_bindings() == old(
                self,
            ).spec_bindings().update(
                slot_index - old(self).spec_layout().spec_base(),
                Some(resource),
            ),
    {
        if slot_index < self.layout.base_slot_index {
            return Err(SlotError::SlotOutOfRange);
        }
        let off = (slot_index - self.layout.base_slot_index) as usize;
        if off >= self.bindings.len() {
            return Err(SlotError::SlotOutOfRange);
        }
        match self.layout.kinds[off] {
            SlotKind::DataBlob => Err(SlotError::SlotKindMismatch),
            _ => {
                self.bindings[off] = Some(resource);
                Ok(())
            },
        }
    }

    /// Resets a slot to the explicit unbound sentinel, under the same range
    /// and kind rules as `bind`.
    pub fn unbind(&mut self, slot_index: u16) -> (r: Result<(), SlotError>)
        requires
            old(self).wf(),
        ensures
            final(self).wf(),
            final(self).spec_layout() == old(self).spec_layout(),
            final(self).spec_payload() == old(self).spec_payload(),
            !old(self).spec_layout().slot_in_range(slot_index) ==> (r matches Err(e) && e
                == SlotError::SlotOutOfRange && *final(self) == *old(self)),
            old(self).spec_layout().slot_in_range(slot_index) && old(self).spec_layout().spec_kinds()[slot_index
                - old(self).spec_layout().spec_base()] is DataBlob ==> (r matches Err(e) && e
                == SlotError::SlotKindMismatch && *final(self) == *old(self)),
            old(self).spec_layout().slot_in_range(slot_index) && !(old(
                self,
            ).spec_layout().spec_kinds()[slot_index - old(self).spec_layout().spec_base()]
                is DataBlob) ==> r is Ok && final(self).spec_bindings() == old(
                self,
            ).spec_bindings().update(slot_index - old(self).spec_layout().spec_base(), None),
    {
        if slot_index < self.layout.base_slot_index {
            return Err(SlotError::SlotOutOfRange);
        }
        let off = (slot_index - self.layout.base_slot_index) as usize;
        if off >= self.bindings.len() {
            return Err(SlotError::SlotOutOfRange);
        }
        match self.layout.kinds[off] {
            SlotKind::DataBlob => Err(SlotError::SlotKindMismatch),
            _ => {
                self.bindings[off] = None;
                Ok(())
            },
        }
    }

    /// Projects the high-level payload fields into the table. The
    /// projection is pure and total for every value that matches the
    /// declared field count; a wrong arity is a contract violation between
    /// declaration and use and fails with `SlotKindMismatch`.
    pub fn set_payload(&mut self, fields: &Vec<u32>) -> (r: Result<(), SlotError>)
        requires
            old(self).wf(),
        ensures
            final(self).wf(),
            final(self).spec_layout() == old(self).spec_layout(),
            final(self).spec_bindings() == old(self).spec_bindings(),
            r is Ok <==> fields@.len() == old(self).spec_layout().spec_payload_words(),
            r matches Err(e) ==> e == SlotError::SlotKindMismatch && *final(self) == *old(self),
            r is Ok ==> final(self).spec_payload() == fields@,
    {
        if fields.len() != (self.layout.payload_words as usize) {
            return Err(SlotError::SlotKindMismatch);
        }
        let mut copied: Vec<u32> = Vec::new();
        let mut i: usize = 0;
        while i < fields.len()
            invariant
                i <= fields@.len(),
                copied@.len() == i,
                forall|j: int| 0 <= j < i ==> (#[trigger] copied@[j]) == fields@[j],
            decreases fields@.len() - i,
        {
            copied.push(fields[i]);
            i = i + 1;
        }
        self.payload = copied;
        proof {
            assert(self.spec_payload() =~= fields@);
        }
        Ok(())
    }

    /// The current binding of an absolute slot index.
    pub fn binding_at(&self, slot_index: u16) -> (r: Result<Option<Handle>, SlotError>)
        requires
            self.wf(),
        ensures
            r is Ok <==> self.spec_layout().slot_in_range(slot_index),
            r matches Err(e) ==> e == SlotError::SlotOutOfRange,
            r matches Ok(b) ==> b == self.spec_bindings()[slot_index
                - self.spec_layout().spec_base()],
    {
        if slot_index < self.layout.base_slot_index {
            return Err(SlotError::SlotOutOfRange);
        }
        let off = (slot_index - self.layout.base_slot_index) as usize;
        if off >= self.bindings.len() {
            return Err(SlotError::SlotOutOfRange);
        }
        Ok(self.bindings[off])
    }

    /// Compiles the table into its immutable, shareable form: the bindings
    /// as they stand and the payload packed into its exact little-endian
    /// byte image. Consuming the table is what makes the result safe to
    /// share with concurrent readers: no further mutation is possible.
    pub fn finalize(self) -> (c: CompiledDescriptor)
        requires
            self.wf(),
        ensures
            c.spec_base() == self.spec_layout().spec_base(),
            c.spec_bindings() == self.spec_bindings(),
            c.spec_blob() == spec_pack(self.spec_payload()),
    {
        let word_count = self.payload.len();
        let mut blob: Vec<u8> = Vec::new();
        let mut i: usize = 0;
        while i < word_count
            invariant
                i <= word_count,
                word_count == self.spec_payload().len(),
                blob@.len() == 4 * i,
                forall|j: int|
                    0 <= j < blob@.len() ==> (#[trigger] blob@[j]) == word_byte(
                        self.spec_payload()[j / 4],
                        j % 4,
                    ),
            decreases word_count - i,
        {
            let w = self.payload[i];
            let b0 = #[verifier::truncate] ((w & 0xff) as u8);
            let b1 = #[verifier::truncate] (((w >> 8) & 0xff) as u8);
            let b2 = #[verifier::truncate] (((w >> 16) & 0xff) as u8);
            let b3 = #[verifier::truncate] (((w >> 24) & 0xff) as u8);
            blob.push(b0);
            blob.push(b1);
            blob.push(b2);
            blob.push(b3);
            proof {
                let ii = i as int;
                assert((4 * ii) / 4 == ii && (4 * ii) % 4 == 0) by (nonlinear_arith);
                assert((4 * ii + 1) / 4 == ii && (4 * ii + 1) % 4 == 1) by (nonlinear_arith);
                assert((4 * ii + 2) / 4 == ii && (4 * ii + 2) % 4 == 2) by (nonlinear_arith);
                assert((4 * ii + 3) / 4 == ii && (4 * ii + 3) % 4 == 3) by (nonlinear_arith);
            }
            i = i + 1;
        }
        proof {
            assert(blob@ =~= spec_pack(self.spec_payload()));
        }
        CompiledDescriptor {
            base_slot_index: self.layout.base_slot_index,
            bindings: self.bindings,
            blob,
        }
    }
}

/// The immutable, shader-facing form of a descriptor table: the base slot
/// index, the per-slot bindings and the packed payload blob. The render
/// path reads it and never writes.
pub struct CompiledDescriptor {
    base_slot_index: u16,
    bindings: Vec<Option<Handle>>,
    blob: Vec<u8>,
}

impl CompiledDescriptor {
    /// First slot index of the reserved range.
    pub closed spec fn spec_base(&self) -> u16 {
        self.base_slot_index
    }

    /// The binding of each slot, in slot order.
    pub closed spec fn spec_bindings(&self) -> Seq<Option<Handle>> {
        self.bindings@
    }

    /// The packed payload blob.
    pub closed spec fn spec_blob(&self) -> Seq<u8> {
        self.blob@
    }

    /// First slot index of the reserved range.
    pub fn base_slot_index(&self) -> (b: u16)
        ensures
            b == self.spec_base(),
    {
        self.base_slot_index
    }

    /// Number of slots described.
    pub fn slot_count(&self) -> (n: usize)
        ensures
            n == self.spec_bindings().len(),
    {
        self.bindings.len()
    }

    /// Byte length of the packed blob.
    pub fn blob_len(&self) -> (n: usize)
        ensures
            n == self.spec_blob().len(),
    {
        self.blob.len()
    }

    /// The compiled binding of an absolute slot index.
    pub fn binding_at(&self, slot_index: u16) -> (r: Result<Option<Handle>, SlotError>)
        ensures
            r is Ok <==> self.spec_base() <= slot_index < self.spec_base()
                + self.spec_bindings().len(),
            r matches Err(e) ==> e == SlotError::SlotOutOfRange,
            r matches Ok(b) ==> b == self.spec_bindings()[slot_index - self.spec_base()],
    {
        if slot_index < self.base_slot_index {
            return Err(SlotError::SlotOutOfRange);
        }
        let off = (slot_index - self.base_slot_index) as usize;
        if off >= self.bindings.len() {
            return Err(SlotError::SlotOutOfRange);
        }
        Ok(self.bindings[off])
    }

    /// Reads the 32-bit payload field at `index` back out of the packed
    /// blob.
    pub fn read_field(&self, index: usize) -> (r: Result<u32, SlotError>)
        ensures
            r is Ok <==> 4 * index + 4 <= self.spec_blob().len(),
            r matches Err(e) ==> e == SlotError::SlotOutOfRange,
            r matches Ok(w) ==> w == spec_word_at(self.spec_blob(), index as int),
    {
        if index >= self.blob.len() / 4 {
            proof {
                assert(4 * index + 4 > self.spec_blob().len()) by (nonlinear_arith)
                    requires
                        index >= self.spec_blob().len() / 4,
                ;
            }
            return Err(SlotError::SlotOutOfRange);
        }
        proof {
            assert(4 * index + 4 <= self.spec_blob().len()) by (nonlinear_arith)
                requires
                    index < self.spec_blob().len() / 4,
            ;
        }
        let b0 = self.blob[4 * index];
        let b1 = self.blob[4 * index + 1];
        let b2 = self.blob[4 * index + 2];
        let b3 = self.blob[4 * index + 3];
        Ok((b0 as u32) | ((b1 as u32) << 8) | ((b2 as u32) << 16) | ((b3 as u32) << 24))
    }

    /// Whether this descriptor matches a registration-time contract
    /// exactly: base slot, slot count and blob byte size. The binding layer
    /// checks this once at registration, not at draw time.
    pub fn matches_contract(&self, base_slot_index: u16, slot_count: usize, blob_byte_size: usize)
        -> (r: bool)
        ensures
            r <==> (self.spec_base() == base_slot_index && self.spec_bindings().len() == slot_count
                && self.spec_blob().len() == blob_byte_size),
    {
        self.base_slot_index == base_slot_index && self.bindings.len() == slot_count
            && self.blob.len() == blob_byte_size
    }
}

/// A base shading model combined with one compiled extension descriptor.
/// A scene node owns exactly one variant at a time; installing a new one
/// releases the previous one's slot reservations.
pub struct MaterialVariant {
    base_material: Handle,
    extension: CompiledDescriptor,
}

impl MaterialVariant {
    /// The base material handle.
    pub closed spec fn spec_base_material(&self) -> Handle {
        self.base_material
    }

    /// The compiled extension descriptor.
    pub closed spec fn spec_extension(&self) -> CompiledDescriptor {
        self.extension
    }

    /// Pairs a base material with a compiled extension descriptor.
    pub fn new(base_material: Handle, extension: CompiledDescriptor) -> (v: MaterialVariant)
        ensures
            v.spec_base_material() == base_material,
            v.spec_extension() == extension,
    {
        MaterialVariant { base_material, extension }
    }

    /// The base material handle.
    pub fn base_material(&self) -> (h: Handle)
        ensures
            h == self.spec_base_material(),
    {
        self.base_material
    }

    /// The compiled extension descriptor.
    pub fn extension(&self) -> (e: &CompiledDescriptor)
        ensures
            *e == self.spec_extension(),
    {
        &self.extension
    }
}

} // verus!
