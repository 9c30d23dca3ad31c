use broadcast_enc::curve::Scalar;
use broadcast_enc::{BroadcastChannel, BroadcastError, Recipient};

#[test]
fn it_works() {
    let number_participants = 10usize;
    let mut rng = rand::thread_rng();

    let (channel, participants) =
        BroadcastChannel::init_participants(number_participants, &mut rng).unwrap();

    assert_eq!(participants.clone().len(), number_participants);

    let recipients = vec![1, 3, 5];

    let (ctx_0, ctx_1, ctx_2) = channel.encrypt(&recipients, &mut rng).unwrap();

    let participant_1: Recipient = participants[0].clone();
    let participant_2: Recipient = participants[1].clone();
    let participant_3: Recipient = participants[2].clone();

    let dec_key_1 = participant_1.decrypt(&recipients, &channel, &ctx_0, &ctx_1);
    assert!(ctx_2.equals(&dec_key_1));

    let dec_key_2 = participant_2.decrypt(&recipients, &channel, &ctx_0, &ctx_1);
    assert!(!ctx_2.equals(&dec_key_2));

    let dec_key_3 = participant_3.decrypt(&recipients, &channel, &ctx_0, &ctx_1);
    assert!(ctx_2.equals(&dec_key_3));
}

#[test]
fn boundary_single_recipient() {
    let mut rng = rand::thread_rng();
    let (channel, participants) = BroadcastChannel::init_participants(1, &mut rng).unwrap();
    assert_eq!(participants.len(), 1);
    assert_eq!(participants[0].identifier(), 1);

    let set = vec![1];
    let (ctx_0, ctx_1, key) = channel.encrypt(&set, &mut rng).unwrap();
    let recovered = participants[0].decrypt(&set, &channel, &ctx_0, &ctx_1);
    assert!(key.equals(&recovered));
}

#[test]
fn concrete_subset_scenario() {
    let mut rng = rand::thread_rng();
    let (channel, participants) = BroadcastChannel::init_participants(10, &mut rng).unwrap();
    let set = vec![1, 3, 5];
    let (ctx_0, ctx_1, key) = channel.encrypt(&set, &mut rng).unwrap();

    // Members 1, 3 and 5 recover the session key.
    for member in [1usize, 3, 5] {
        let recovered = participants[member - 1].decrypt(&set, &channel, &ctx_0, &ctx_1);
        assert!(key.equals(&recovered));
    }
    // Non-members 2 and 7 obtain some other value.
    for outsider in [2usize, 7] {
        let wrong = participants[outsider - 1].decrypt(&set, &channel, &ctx_0, &ctx_1);
        assert!(!key.equals(&wrong));
    }
}

#[test]
fn members_always_recover() {
    let mut rng = rand::thread_rng();
    for n in 1usize..=6 {
        let (channel, participants) = BroadcastChannel::init_participants(n, &mut rng).unwrap();
        // Address every second recipient, starting with the last one.
        let set: Vec<usize> = (1..=n).rev().step_by(2).collect();
        let (ctx_0, ctx_1, key) = channel.encrypt(&set, &mut rng).unwrap();
        for member in &set {
            let recovered = participants[member - 1].decrypt(&set, &channel, &ctx_0, &ctx_1);
            assert!(key.equals(&recovered));
        }
    }
}

#[test]
fn setup_shape_is_fixed() {
    let mut rng = rand::thread_rng();
    // The published shape depends on n alone, not on the sampled trapdoors:
    // repeated setups publish the same counts.
    for n in [1usize, 2, 10] {
        for _round in 0..2 {
            let (channel, participants) =
                BroadcastChannel::init_participants(n, &mut rng).unwrap();
            assert_eq!(channel.number_participants(), n);
            assert_eq!(channel.published_g1_len(), 2 * n);
            assert_eq!(channel.published_g2_len(), 2);
            assert_eq!(participants.len(), n);
            for (idx, participant) in participants.iter().enumerate() {
                assert_eq!(participant.identifier(), idx + 1);
            }
        }
    }
}

#[test]
fn setup_zero_participants_rejected() {
    let mut rng = rand::thread_rng();
    let result = BroadcastChannel::init_participants(0, &mut rng);
    assert!(matches!(result, Err(BroadcastError::InvalidParameter)));
}

#[test]
fn encrypt_out_of_range_rejected() {
    let mut rng = rand::thread_rng();
    let (channel, _participants) = BroadcastChannel::init_participants(10, &mut rng).unwrap();
    let result = channel.encrypt(&vec![11], &mut rng);
    assert!(matches!(result, Err(BroadcastError::InvalidParameter)));
    let zero = channel.encrypt(&vec![0], &mut rng);
    assert!(matches!(zero, Err(BroadcastError::InvalidParameter)));
}

#[test]
fn encrypt_empty_set_rejected() {
    let mut rng = rand::thread_rng();
    let (channel, _participants) = BroadcastChannel::init_participants(10, &mut rng).unwrap();
    let result = channel.encrypt(&Vec::new(), &mut rng);
    assert!(matches!(result, Err(BroadcastError::InvalidParameter)));
}

#[test]
fn encrypt_dedup_equivalent() {
    let mut rng = rand::thread_rng();
    let (channel, _participants) = BroadcastChannel::init_participants(5, &mut rng).unwrap();
    let k = Scalar::from_u64(42);
    let with_duplicates = vec![1, 2, 2, 3, 1, 3];
    let deduplicated = vec![1, 2, 3];
    let (c0_a, c1_a, key_a) = channel.encrypt_with_key(&with_duplicates, &k).unwrap();
    let (c0_b, c1_b, key_b) = channel.encrypt_with_key(&deduplicated, &k).unwrap();
    assert!(c0_a.equals(&c0_b));
    assert!(c1_a.equals(&c1_b));
    assert!(key_a.equals(&key_b));
}

#[test]
fn fresh_scalar_each_encryption() {
    let mut rng = rand::thread_rng();
    let (channel, _participants) = BroadcastChannel::init_participants(4, &mut rng).unwrap();
    let set = vec![1, 2];
    let (c0_a, c1_a, key_a) = channel.encrypt(&set, &mut rng).unwrap();
    let (c0_b, c1_b, key_b) = channel.encrypt(&set, &mut rng).unwrap();
    // A fresh single-use scalar makes both headers and keys differ.
    assert!(!c0_a.equals(&c0_b));
    assert!(!c1_a.equals(&c1_b));
    assert!(!key_a.equals(&key_b));
}

#[test]
fn decrypt_with_duplicate_listing_still_recovers() {
    let mut rng = rand::thread_rng();
    let (channel, participants) = BroadcastChannel::init_participants(6, &mut rng).unwrap();
    let clean = vec![2, 4, 6];
    let noisy = vec![4, 2, 6, 4, 2];
    let (ctx_0, ctx_1, key) = channel.encrypt(&clean, &mut rng).unwrap();
    // Decryption sees the same member set however the list is written.
    let recovered = participants[3].decrypt(&noisy, &channel, &ctx_0, &ctx_1);
    assert!(key.equals(&recovered));
}

#[test]
fn recipient_of_another_channel_fails() {
    let mut rng = rand::thread_rng();
    let (channel_a, _participants_a) = BroadcastChannel::init_participants(5, &mut rng).unwrap();
    let (channel_b, participants_b) = BroadcastChannel::init_participants(5, &mut rng).unwrap();
    let set = vec![1, 2, 3];
    let (ctx_0, ctx_1, key) = channel_a.encrypt(&set, &mut rng).unwrap();
    // A recipient holds keys for the channel it was issued under; against a
    // header of an independent channel it recovers only a mismatching value.
    let foreign = participants_b[0].decrypt(&set, &channel_a, &ctx_0, &ctx_1);
    assert!(!key.equals(&foreign));
}

#[test]
fn encrypt_with_fixed_scalar_is_deterministic() {
    let mut rng = rand::thread_rng();
    let (channel, _participants) = BroadcastChannel::init_participants(3, &mut rng).unwrap();
    let set = vec![1, 3];
    let k = Scalar::from_u64(7);
    let (c0_a, c1_a, key_a) = channel.encrypt_with_key(&set, &k).unwrap();
    let (c0_b, c1_b, key_b) = channel.encrypt_with_key(&set, &k).unwrap();
    assert!(c0_a.equals(&c0_b));
    assert!(c1_a.equals(&c1_b));
    assert!(key_a.equals(&key_b));
}
