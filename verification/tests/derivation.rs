use anchor_lang::prelude::Pubkey;
use safe_harbor::derivation::{escrow_address, vault_address, ESCROW_TAG, VAULT_TAG};
use safe_harbor::Address;

#[test]
fn the_tags_spell_their_names() {
    assert_eq!(&ESCROW_TAG, b"escrow");
    assert_eq!(&VAULT_TAG, b"vault");
}

#[test]
fn escrow_address_is_the_program_derived_address() {
    let program = Address::new([7u8; 32]);
    let maker = Address::new([9u8; 32]);
    let seed: u64 = 0x0102_0304_0506_0708;
    let expected = Pubkey::find_program_address(
        &[b"escrow", &[9u8; 32], &seed.to_le_bytes()],
        &Pubkey::new_from_array([7u8; 32]),
    );
    let found = escrow_address(&program, &maker, seed);
    assert_eq!(found, Some((Address::new(expected.0.to_bytes()), expected.1)));
    assert_ne!(found.unwrap().0, maker);
    assert_ne!(found.unwrap().0, program);
}

#[test]
fn escrow_address_can_be_made_again_from_its_adjustment() {
    let program = Address::new([7u8; 32]);
    let maker = Address::new([9u8; 32]);
    let (address, adjustment) = escrow_address(&program, &maker, 5).unwrap();
    let again = Pubkey::create_program_address(
        &[b"escrow", &[9u8; 32], &5u64.to_le_bytes(), &[adjustment]],
        &Pubkey::new_from_array([7u8; 32]),
    )
    .unwrap();
    assert_eq!(address, Address::new(again.to_bytes()));
    assert!(!again.is_on_curve());
}

#[test]
fn escrow_address_depends_on_maker_seed_and_program() {
    let program = Address::new([7u8; 32]);
    let maker = Address::new([9u8; 32]);
    let base = escrow_address(&program, &maker, 1).unwrap().0;
    assert_eq!(escrow_address(&program, &maker, 1).unwrap().0, base);
    assert_ne!(escrow_address(&program, &maker, 2).unwrap().0, base);
    assert_ne!(escrow_address(&program, &maker, 256).unwrap().0, base);
    assert_ne!(escrow_address(&program, &Address::new([8u8; 32]), 1).unwrap().0, base);
    assert_ne!(escrow_address(&Address::new([8u8; 32]), &maker, 1).unwrap().0, base);
}

#[test]
fn vault_address_is_the_program_derived_address() {
    let program = Address::new([7u8; 32]);
    let escrow = Address::new([3u8; 32]);
    let expected = Pubkey::find_program_address(
        &[b"vault", &[3u8; 32]],
        &Pubkey::new_from_array([7u8; 32]),
    );
    let found = vault_address(&program, &escrow);
    assert_eq!(found, Some((Address::new(expected.0.to_bytes()), expected.1)));
    assert_ne!(found.unwrap().0, escrow);
}

#[test]
fn vault_address_differs_from_escrow_address() {
    let program = Address::new([7u8; 32]);
    let maker = Address::new([9u8; 32]);
    let escrow = escrow_address(&program, &maker, 1).unwrap().0;
    let vault = vault_address(&program, &escrow).unwrap().0;
    assert_ne!(vault, escrow);
    assert_ne!(vault_address(&program, &maker).unwrap().0, vault);
}
