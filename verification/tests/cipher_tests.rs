use caesar::cipher::shift;
use caesar::Alphabet;
use caesar::Direction;
use caesar::Operation;

fn english() -> Alphabet {
    Alphabet::new("abcdefghijklmnopqrstuvwxyz")
}

fn turkish() -> Alphabet {
    // a b c ç d e f g ğ h ı i j k l m n o ö p r s ş t u ü v y z
    Alphabet::new("abc\u{e7}defg\u{11f}h\u{131}ijklmno\u{f6}prs\u{15f}tu\u{fc}vyz")
}

#[test]
fn english_has_26_letters() {
    assert_eq!(english().len(), 26);
}

#[test]
fn turkish_has_29_letters() {
    assert_eq!(turkish().len(), 29);
}

#[test]
fn position_of_finds_each_letter() {
    let a = english();
    assert_eq!(a.position_of('a'), Some(0));
    assert_eq!(a.position_of('z'), Some(25));
    assert_eq!(a.position_of('!'), None);
    assert_eq!(a.position_of('A'), None);
}

#[test]
fn char_at_inverts_position_of() {
    let a = english();
    for (i, c) in "abcdefghijklmnopqrstuvwxyz".chars().enumerate() {
        assert_eq!(a.char_at(i), c);
        assert_eq!(a.position_of(c), Some(i));
    }
}

#[test]
fn position_of_turkish_specific_letters() {
    let a = turkish();
    assert_eq!(a.position_of('\u{e7}'), Some(3)); // ç
    assert_eq!(a.position_of('\u{131}'), Some(10)); // ı
    assert_eq!(a.position_of('z'), Some(28));
    assert_eq!(a.position_of('q'), None); // q is not a Turkish letter
}

#[test]
fn cipher_abc_right_one_gives_bcd() {
    let a = english();
    let r = Operation::Cipher.apply("abc", 1, Direction::Right, &a);
    assert_eq!(r, Ok("bcd".to_string()));
}

#[test]
fn decipher_bcd_right_one_gives_abc() {
    let a = english();
    let r = Operation::Decipher.apply("bcd", 1, Direction::Right, &a);
    assert_eq!(r, Ok("abc".to_string()));
}

#[test]
fn cipher_z_right_one_wraps_to_a() {
    let a = english();
    let r = Operation::Cipher.apply("z", 1, Direction::Right, &a);
    assert_eq!(r, Ok("a".to_string()));
}

#[test]
fn cipher_turkish_z_right_one_wraps_to_a() {
    let a = turkish();
    let r = Operation::Cipher.apply("z", 1, Direction::Right, &a);
    assert_eq!(r, Ok("a".to_string()));
}

#[test]
fn shift_left_subtracts_positions() {
    let a = english();
    assert_eq!(shift("bcd".to_string(), 1, Direction::Left, &a), "abc");
}

#[test]
fn shift_wraps_like_normalized_shift() {
    // Shifting by 27 equals shifting by 27 mod 26 == 1, in both directions.
    let a = english();
    assert_eq!(
        shift("abc".to_string(), 27, Direction::Right, &a),
        shift("abc".to_string(), 1, Direction::Right, &a)
    );
    assert_eq!(
        shift("abc".to_string(), 27, Direction::Left, &a),
        shift("abc".to_string(), 1, Direction::Left, &a)
    );
}

#[test]
fn negative_shift_flips_direction() {
    // Shift right by -3 equals shift left by 3.
    let a = english();
    assert_eq!(
        shift("hello".to_string(), -3, Direction::Right, &a),
        shift("hello".to_string(), 3, Direction::Left, &a)
    );
    assert_eq!(shift("a".to_string(), -1, Direction::Right, &a), "z");
}

#[test]
fn shift_by_alphabet_length_is_identity() {
    let a = english();
    assert_eq!(shift("word".to_string(), 26, Direction::Right, &a), "word");
    assert_eq!(shift("word".to_string(), -52, Direction::Left, &a), "word");
    let t = turkish();
    assert_eq!(shift("kelime".to_string(), 29, Direction::Right, &t), "kelime");
}

#[test]
fn shift_by_zero_is_identity() {
    let a = english();
    assert_eq!(shift("word".to_string(), 0, Direction::Right, &a), "word");
    assert_eq!(shift("word".to_string(), 0, Direction::Left, &a), "word");
}

#[test]
fn characters_outside_alphabet_pass_through() {
    let a = english();
    assert_eq!(shift("a!b 1C".to_string(), 1, Direction::Right, &a), "b!c 1C");
}

#[test]
fn empty_message_stays_empty() {
    let a = english();
    assert_eq!(shift(String::new(), 5, Direction::Right, &a), "");
}

#[test]
fn round_trip_restores_message() {
    let a = english();
    for &s in &[0, 1, 7, 25, 26, 1000, -1, -100, i32::MAX, i32::MIN] {
        for &d in &[Direction::Left, Direction::Right] {
            let ciphered = Operation::Cipher.apply("roundtrip", s, d, &a).unwrap();
            let deciphered = Operation::Decipher.apply(&ciphered, s, d, &a).unwrap();
            assert_eq!(deciphered, "roundtrip");
        }
    }
}

#[test]
fn round_trip_turkish() {
    let t = turkish();
    let word = "\u{e7}\u{11f}\u{131}\u{f6}\u{15f}\u{fc}"; // çğıöşü
    let ciphered = Operation::Cipher.apply(word, 13, Direction::Right, &t).unwrap();
    let deciphered = Operation::Decipher.apply(&ciphered, 13, Direction::Right, &t).unwrap();
    assert_eq!(deciphered, word);
}

#[test]
fn apply_never_fails() {
    let a = english();
    assert!(Operation::Cipher.apply("abc", i32::MIN, Direction::Left, &a).is_ok());
    assert!(Operation::Decipher.apply("abc", i32::MIN, Direction::Right, &a).is_ok());
}

#[test]
fn decipher_of_minimum_shift_matches_cipher_inverse() {
    // i32::MIN cannot be negated in i32; the operation still inverts exactly.
    let a = english();
    let c = Operation::Cipher.apply("edge", i32::MIN, Direction::Right, &a).unwrap();
    let d = Operation::Decipher.apply(&c, i32::MIN, Direction::Right, &a).unwrap();
    assert_eq!(d, "edge");
}
