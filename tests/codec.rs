use pvss_core::ibe_block::N0;
use pvss_core::polling::ibe_encryption as polling_codec;
use pvss_core::pvss::ibe as pvss_codec;

#[test]
fn ibe_bitcodec_roundtrip() {
    assert!(N0 >= 1024, "N0 must be at least 1024 for the codec");

    let mut bytes = [0u8; 96];
    for i in 0..96 {
        bytes[i] = (i as u8).wrapping_mul(37).wrapping_add(11);
    }

    let msg_vec = pvss_codec::scalar_bytes_to_encryption_input(&bytes);
    let bytes_rt = pvss_codec::decryption_output_to_scalar_bytes(&msg_vec);

    assert_eq!(bytes, bytes_rt, "round-trip failed");

    let zeros = [0u8; 96];
    assert_eq!(
        zeros,
        pvss_codec::decryption_output_to_scalar_bytes(&pvss_codec::scalar_bytes_to_encryption_input(&zeros))
    );

    let ones = [0xFFu8; 96];
    assert_eq!(
        ones,
        pvss_codec::decryption_output_to_scalar_bytes(&pvss_codec::scalar_bytes_to_encryption_input(&ones))
    );
}

#[test]
fn ibe_encryption_bitcodec_roundtrip() {
    assert!(N0 >= 256, "N0 must be at least 256 for the codec");

    let mut bytes = [0u8; 32];
    for i in 0..32 {
        bytes[i] = (i as u8).wrapping_mul(37).wrapping_add(11);
    }

    let msg_vec = polling_codec::scalar_bytes_to_encryption_input(&bytes);
    let bytes_rt = polling_codec::decryption_output_to_scalar_bytes(&msg_vec);

    assert_eq!(bytes, bytes_rt, "round-trip failed");

    let zeros = [0u8; 32];
    assert_eq!(
        zeros,
        polling_codec::decryption_output_to_scalar_bytes(&polling_codec::scalar_bytes_to_encryption_input(&zeros))
    );

    let ones = [0xFFu8; 32];
    assert_eq!(
        ones,
        polling_codec::decryption_output_to_scalar_bytes(&polling_codec::scalar_bytes_to_encryption_input(&ones))
    );
}

#[test]
fn bit_layout_is_least_significant_first() {
    let mut bytes = [0u8; 32];
    bytes[0] = 0b0000_0101;
    bytes[31] = 0x80;
    let msg = polling_codec::scalar_bytes_to_encryption_input(&bytes);
    assert_eq!(msg[0], 1);
    assert_eq!(msg[1], 0);
    assert_eq!(msg[2], 1);
    assert_eq!(msg[255], 1);
    assert_eq!(msg[254], 0);
    assert!(msg[256..].iter().all(|&v| v == 0));
}

#[test]
fn decoding_keeps_only_the_lowest_bit() {
    let mut msg = [0i64; N0];
    msg[0] = 3;
    msg[1] = 2;
    msg[9] = -1;
    let bytes = polling_codec::decryption_output_to_scalar_bytes(&msg);
    assert_eq!(bytes[0], 1);
    assert_eq!(bytes[1], 2);
}

#[test]
fn identity_vector_copies_bytes() {
    let id: Vec<u8> = vec![7, 0, 255, 9];
    let v = polling_codec::convert_id_to_ibe_format(&id);
    assert_eq!(&v[..4], &[7, 0, 255, 9]);
    assert!(v[4..].iter().all(|&x| x == 0));

    let id96 = [5u8; 96];
    let w = pvss_codec::convert_id_to_ibe_format(&id96);
    assert!(w[..96].iter().all(|&x| x == 5));
    assert!(w[96..].iter().all(|&x| x == 0));
}
