use asset_gate::descriptor::{
    BindlessDescriptorTable, ExtensionLayout, MaterialVariant, SlotError, SlotKind,
};
use asset_gate::handle::Handle;

/// The layout of the blended-material extension used throughout: a data
/// blob at the base slot and three texture/sampler pairs after it.
fn blended_layout() -> ExtensionLayout {
    ExtensionLayout::register(
        50,
        vec![
            SlotKind::DataBlob,
            SlotKind::Texture,
            SlotKind::Sampler,
            SlotKind::Texture,
            SlotKind::Sampler,
            SlotKind::Texture,
            SlotKind::Sampler,
        ],
        1,
    )
    .unwrap()
}

fn tex(slot: usize) -> Handle {
    Handle { slot, generation: 0 }
}

#[test]
fn registration_validates_the_slot_range_once() {
    let layout = blended_layout();
    assert_eq!(layout.base_slot_index(), 50);
    assert_eq!(layout.slot_count(), 7);
    assert_eq!(layout.payload_words(), 1);
    assert_eq!(layout.blob_byte_size(), 4);
    assert!(matches!(
        ExtensionLayout::register(0xFFFF, vec![SlotKind::Texture, SlotKind::Sampler], 0),
        Err(SlotError::SlotOutOfRange)
    ));
    assert!(ExtensionLayout::register(0xFFFE, vec![SlotKind::Texture, SlotKind::Sampler], 0).is_ok());
}

#[test]
fn kind_of_slot_follows_the_declaration() {
    let layout = blended_layout();
    assert_eq!(layout.kind_of_slot(50), Ok(SlotKind::DataBlob));
    assert_eq!(layout.kind_of_slot(51), Ok(SlotKind::Texture));
    assert_eq!(layout.kind_of_slot(52), Ok(SlotKind::Sampler));
    assert_eq!(layout.kind_of_slot(57), Err(SlotError::SlotOutOfRange));
    assert_eq!(layout.kind_of_slot(49), Err(SlotError::SlotOutOfRange));
}

#[test]
fn binding_out_of_range_fails_and_mutates_nothing() {
    let mut table = BindlessDescriptorTable::allocate(blended_layout());
    table.bind(51, tex(7)).unwrap();
    assert_eq!(table.bind(49, tex(8)), Err(SlotError::SlotOutOfRange));
    assert_eq!(table.bind(57, tex(8)), Err(SlotError::SlotOutOfRange));
    assert_eq!(table.bind(1000, tex(8)), Err(SlotError::SlotOutOfRange));
    // The table is exactly as it was: one bound slot, the rest unbound.
    assert_eq!(table.binding_at(51), Ok(Some(tex(7))));
    for slot in [50u16, 52, 53, 54, 55, 56] {
        assert_eq!(table.binding_at(slot), Ok(None));
    }
}

#[test]
fn binding_the_data_blob_slot_is_a_kind_mismatch() {
    let mut table = BindlessDescriptorTable::allocate(blended_layout());
    assert_eq!(table.bind(50, tex(7)), Err(SlotError::SlotKindMismatch));
    assert_eq!(table.binding_at(50), Ok(None));
}

#[test]
fn absent_channels_stay_explicitly_unbound() {
    let mut table = BindlessDescriptorTable::allocate(blended_layout());
    table.bind(51, tex(7)).unwrap();
    table.bind(53, tex(9)).unwrap();
    table.unbind(51).unwrap();
    assert_eq!(table.binding_at(51), Ok(None));
    assert_eq!(table.binding_at(53), Ok(Some(tex(9))));
    // The compiled form keeps the fixed shape, sparse slots included.
    let compiled = table.finalize();
    assert_eq!(compiled.slot_count(), 7);
    assert_eq!(compiled.binding_at(51), Ok(None));
    assert_eq!(compiled.binding_at(53), Ok(Some(tex(9))));
}

#[test]
fn payload_arity_must_match_the_declaration() {
    let mut table = BindlessDescriptorTable::allocate(blended_layout());
    assert_eq!(
        table.set_payload(&vec![1, 2]),
        Err(SlotError::SlotKindMismatch)
    );
    assert_eq!(table.set_payload(&vec![]), Err(SlotError::SlotKindMismatch));
    assert_eq!(table.set_payload(&vec![42]), Ok(()));
}

#[test]
fn strength_round_trips_exactly_through_the_packed_blob() {
    // A blend strength of 0.75 survives projection and read-back bit for
    // bit.
    let strength: f32 = 0.75;
    let mut table = BindlessDescriptorTable::allocate(blended_layout());
    table.set_payload(&vec![strength.to_bits()]).unwrap();
    let compiled = table.finalize();
    assert_eq!(compiled.blob_len(), 4);
    let word = compiled.read_field(0).unwrap();
    assert_eq!(word, strength.to_bits());
    assert_eq!(f32::from_bits(word), 0.75);
    assert_eq!(compiled.read_field(1), Err(SlotError::SlotOutOfRange));
}

#[test]
fn packed_blob_is_little_endian_bytes() {
    let layout = ExtensionLayout::register(10, vec![SlotKind::DataBlob], 2).unwrap();
    let mut table = BindlessDescriptorTable::allocate(layout);
    table.set_payload(&vec![0x3F400000, 0x11223344]).unwrap();
    let compiled = table.finalize();
    assert_eq!(compiled.blob_len(), 8);
    assert_eq!(compiled.read_field(0), Ok(0x3F400000));
    assert_eq!(compiled.read_field(1), Ok(0x11223344));
}

#[test]
fn compiled_descriptor_matches_its_registration_contract() {
    let table = BindlessDescriptorTable::allocate(blended_layout());
    let compiled = table.finalize();
    assert!(compiled.matches_contract(50, 7, 4));
    assert!(!compiled.matches_contract(50, 6, 4));
    assert!(!compiled.matches_contract(50, 7, 8));
    assert!(!compiled.matches_contract(51, 7, 4));
    assert_eq!(compiled.base_slot_index(), 50);
}

#[test]
fn material_variant_pairs_base_and_extension() {
    let table = BindlessDescriptorTable::allocate(blended_layout());
    let compiled = table.finalize();
    let base = tex(3);
    let variant = MaterialVariant::new(base, compiled);
    assert_eq!(variant.base_material(), base);
    assert_eq!(variant.extension().base_slot_index(), 50);
    assert_eq!(variant.extension().slot_count(), 7);
}
