use nanopass::generator::{alphabet_char, generate_random_password, Draws, ALPHABET_LEN, GENERATED_LEN};

const PASS_CHARS: &[u8] = b"abcdefghijklmnopqrstuvwxyzABCDEFGHIJKLMNOPQRSTUVWXYZ0123456789";

#[test]
fn the_alphabet_is_lower_case_then_upper_case_then_digits() {
    assert_eq!(PASS_CHARS.len() as u32, ALPHABET_LEN);
    for pick in 0..ALPHABET_LEN {
        assert_eq!(alphabet_char(pick), PASS_CHARS[pick as usize]);
    }
    assert_eq!(alphabet_char(0), b'a');
    assert_eq!(alphabet_char(25), b'z');
    assert_eq!(alphabet_char(26), b'A');
    assert_eq!(alphabet_char(51), b'Z');
    assert_eq!(alphabet_char(52), b'0');
    assert_eq!(alphabet_char(61), b'9');
}

#[test]
fn different_picks_give_different_characters() {
    for a in 0..ALPHABET_LEN {
        for b in 0..a {
            assert_ne!(alphabet_char(a), alphabet_char(b));
        }
    }
}

#[test]
fn draws_outside_the_alphabet_are_refused() {
    let mut picks = [0u32; 16];
    assert!(Draws::new(picks).is_some());
    picks[15] = 61;
    assert!(Draws::new(picks).is_some());
    picks[15] = 62;
    assert!(Draws::new(picks).is_none());
    picks[15] = 0;
    picks[0] = u32::MAX;
    assert!(Draws::new(picks).is_none());
}

#[test]
fn draws_give_back_what_they_took() {
    let picks = [3, 1, 4, 1, 5, 9, 2, 6, 5, 3, 5, 8, 9, 7, 9, 61];
    let draws = Draws::new(picks).unwrap();
    for (i, pick) in picks.iter().enumerate() {
        assert_eq!(draws.get(i), *pick);
    }
}

#[test]
fn draws_hand_out_their_sixteen_picks() {
    let picks = [3, 1, 4, 1, 5, 9, 2, 6, 5, 3, 5, 8, 9, 7, 9, 61];
    let draws = Draws::new(picks).unwrap();
    assert_eq!(draws.as_slice(), &picks);
}

#[test]
fn a_generated_password_is_what_the_draws_pick() {
    let draws = [0, 25, 26, 51, 52, 61, 7, 33, 60, 1, 2, 3, 4, 5, 6, 7];
    let mut dest = [0u8; 16];
    generate_random_password(&mut dest, GENERATED_LEN, &draws);
    assert_eq!(&dest, b"azAZ09hH8bcdefgh");
    let validated = Draws::new(draws).unwrap();
    let mut again = [0u8; 16];
    generate_random_password(&mut again, GENERATED_LEN, validated.as_slice());
    assert_eq!(again, dest);
}

#[test]
fn a_password_can_be_longer_than_sixteen_characters() {
    let draws: Vec<u32> = (0..40).map(|i| (i * 5 + 3) % 62).collect();
    let mut dest = [0xeeu8; 20];
    generate_random_password(&mut dest, 17, &draws);
    assert_eq!(&dest[..17], b"dinsxCHMRW16bglqv");
    assert_eq!(&dest[17..], &[0xee; 3]);
    let mut field = [0u8; 32];
    generate_random_password(&mut field, 32, &draws);
    assert_eq!(&field, b"dinsxCHMRW16bglqvAFKPUZ49ejotyDI");
    let mut all = [0u8; 40];
    generate_random_password(&mut all, 40, &draws);
    for (i, c) in all.iter().enumerate() {
        assert_eq!(*c, PASS_CHARS[draws[i] as usize]);
    }
}

#[test]
fn only_as_many_draws_as_characters_are_looked_at() {
    let draws = [10, 11, 12, 62, u32::MAX];
    let mut dest = [0u8; 8];
    generate_random_password(&mut dest, 3, &draws);
    assert_eq!(&dest, b"klm\0\0\0\0\0");
    let mut short = [0u8; 2];
    generate_random_password(&mut short, 5, &draws);
    assert_eq!(&short, b"kl");
    generate_random_password(&mut dest, 0, &[]);
    assert_eq!(&dest, b"klm\0\0\0\0\0");
}

#[test]
fn every_generated_character_is_a_letter_or_a_digit() {
    let mut first = 0u32;
    while first < 62 {
        let mut picks = [0u32; 24];
        for (i, pick) in picks.iter_mut().enumerate() {
            *pick = (first + 7 * i as u32) % 62;
        }
        let mut dest = [0u8; 24];
        generate_random_password(&mut dest, 24, &picks);
        for c in dest {
            assert!(c.is_ascii_alphanumeric());
            assert!(PASS_CHARS.contains(&c));
        }
        first += 1;
    }
}

#[test]
fn only_the_first_size_bytes_are_written() {
    let draws = [1u32; 16];
    let mut dest = [0xeeu8; 20];
    generate_random_password(&mut dest, 5, &draws);
    assert_eq!(&dest[..5], b"bbbbb");
    assert_eq!(&dest[5..], &[0xee; 15]);
    generate_random_password(&mut dest, 0, &draws);
    assert_eq!(&dest[..5], b"bbbbb");
    assert_eq!(&dest[5..], &[0xee; 15]);
}

#[test]
fn a_short_destination_ends_the_password() {
    let draws = [2u32; 16];
    let mut dest = [0u8; 3];
    generate_random_password(&mut dest, 16, &draws);
    assert_eq!(&dest, b"ccc");
    let mut none: [u8; 0] = [];
    generate_random_password(&mut none, 16, &draws);
}
