use rinse::protocol::obfuscation::{
    deobfuscate, is_likely_obfuscated, obfuscate, obfuscate_with_key, rotate_right,
};

#[test]
fn test_obfuscate_deobfuscate_roundtrip() {
    let original = b"Hello, World! This is a test message.";

    let obfuscated = obfuscate(original);
    assert_eq!(obfuscated.len(), 4 + original.len());

    let deobfuscated = deobfuscate(&obfuscated).unwrap();
    assert_eq!(deobfuscated, original);
}

#[test]
fn test_pierce_firewall_obfuscation() {
    // Simulate a PierceFirewall message: length=5, type=0, token=12345
    let mut message = Vec::new();
    message.extend_from_slice(&5u32.to_le_bytes()); // length
    message.push(0); // type
    message.extend_from_slice(&12345u32.to_le_bytes()); // token

    let obfuscated = obfuscate(&message);
    let deobfuscated = deobfuscate(&obfuscated).unwrap();

    assert_eq!(deobfuscated, message);
}

#[test]
fn test_deobfuscate_short_data() {
    assert!(deobfuscate(&[1, 2, 3]).is_none());
}

#[test]
fn a_key_alone_hides_nothing() {
    assert_eq!(deobfuscate(&[1, 2, 3, 4]), Some(vec![]));
    assert_eq!(obfuscate_with_key(0x0403_0201, &[]), vec![1, 2, 3, 4]);
}

#[test]
fn rotation_by_31_is_left_by_one() {
    assert_eq!(rotate_right(0x8000_0001, 31), 3);
    assert_eq!(rotate_right(1, 1), 0x8000_0000);
    assert_eq!(rotate_right(0x1234_5678, 8), 0x7812_3456);
}

#[test]
fn key_is_rotated_every_four_bytes() {
    // The key 1 masks the first four bytes with 2 and the next four with 4.
    let hidden = obfuscate_with_key(1, &[0, 0, 0, 0, 0, 0, 0, 0]);
    assert_eq!(hidden, vec![1, 0, 0, 0, 2, 0, 0, 0, 4, 0, 0, 0]);
    assert_eq!(deobfuscate(&hidden), Some(vec![0; 8]));
}

#[test]
fn random_keys_differ() {
    let one = obfuscate(b"message");
    let other = (0..8).map(|_| obfuscate(b"message")).find(|m| *m != one);
    assert!(other.is_some());
}

#[test]
fn obfuscated_init_messages_are_recognised() {
    let mut message = 5u32.to_le_bytes().to_vec();
    message.push(0);
    message.extend_from_slice(&7u32.to_le_bytes());
    assert!(is_likely_obfuscated(&obfuscate_with_key(0x1234_5678, &message)));
    assert!(!is_likely_obfuscated(&message));
    assert!(!is_likely_obfuscated(&[5, 0, 0, 0, 0]));
    message[4] = 9;
    assert!(!is_likely_obfuscated(&obfuscate_with_key(0x1234_5678, &message)));
}

#[test]
fn plain_looking_data_is_not_obfuscated() {
    // The key starts with 1 and is a length below 1000.
    let mut message = 5u32.to_le_bytes().to_vec();
    message.push(1);
    message.extend_from_slice(&7u32.to_le_bytes());
    assert!(!is_likely_obfuscated(&obfuscate_with_key(1, &message)));
    // Without that, the same message is taken for an obfuscated one.
    assert!(is_likely_obfuscated(&obfuscate_with_key(0x0100_0001, &message)));
}
