use idevice_desktop::ipa::{macho_has_signature, EMBEDDED_SIGNATURE_MAGIC, LC_CODE_SIGNATURE};

fn signed_thin_macho() -> Vec<u8> {
    let mut bytes = vec![0; 128];
    bytes[0..4].copy_from_slice(&[0xcf, 0xfa, 0xed, 0xfe]);
    bytes[16..20].copy_from_slice(&1u32.to_le_bytes());
    bytes[20..24].copy_from_slice(&16u32.to_le_bytes());
    bytes[32..36].copy_from_slice(&LC_CODE_SIGNATURE.to_le_bytes());
    bytes[36..40].copy_from_slice(&16u32.to_le_bytes());
    bytes[40..44].copy_from_slice(&64u32.to_le_bytes());
    bytes[44..48].copy_from_slice(&12u32.to_le_bytes());
    bytes[64..68].copy_from_slice(&EMBEDDED_SIGNATURE_MAGIC.to_be_bytes());
    bytes
}

#[test]
fn accepts_embedded_signature() {
    assert!(macho_has_signature(&signed_thin_macho()));
}

#[test]
fn rejects_missing_embedded_signature() {
    let mut bytes = signed_thin_macho();
    bytes[64..68].fill(0);
    assert!(!macho_has_signature(&bytes));
}

#[test]
fn requires_every_fat_architecture_to_be_signed() {
    let signed = signed_thin_macho();
    let mut fat = vec![0; 320];
    fat[0..4].copy_from_slice(&[0xca, 0xfe, 0xba, 0xbe]);
    fat[4..8].copy_from_slice(&2u32.to_be_bytes());
    fat[16..20].copy_from_slice(&64u32.to_be_bytes());
    fat[20..24].copy_from_slice(&(signed.len() as u32).to_be_bytes());
    fat[36..40].copy_from_slice(&192u32.to_be_bytes());
    fat[40..44].copy_from_slice(&(signed.len() as u32).to_be_bytes());
    fat[64..192].copy_from_slice(&signed);
    fat[192..320].copy_from_slice(&signed);
    assert!(macho_has_signature(&fat));

    fat[256..260].fill(0);
    assert!(!macho_has_signature(&fat));
}
