use cardslib::{CardError, CARDS_NUM, NUMBER_NUM, SUIT_NUM};

#[test]
fn encode() {
    let mut expected: u32 = 0u32;
    for s in 0u32..4u32 {
        for n in 0u32..13u32 {
            let enc = cardslib::encode(s, n);
            assert_eq!(enc, Ok(expected));
            expected += 1;
        }
    }
    assert_eq!(expected, CARDS_NUM);
}

#[test]
#[should_panic]
fn encode_invalid_1() {
    cardslib::encode(0, 13).unwrap();
}

#[test]
#[should_panic]
fn encode_invalid_2() {
    cardslib::encode(0, 13).unwrap();
}

#[test]
fn decode() {
    let mut code: u32 = 0u32;
    for s in 0u32..4u32 {
        for n in 0u32..13u32 {
            let (suit, number) = cardslib::decode(code).unwrap();
            assert_eq!(suit, s);
            assert_eq!(number, n);
            code += 1;
        }
    }
}

#[test]
#[should_panic]
fn decode_invalid() {
    cardslib::decode(CARDS_NUM).unwrap();
}

#[test]
fn deck_constants() {
    assert_eq!(SUIT_NUM, 4);
    assert_eq!(NUMBER_NUM, 13);
    assert_eq!(CARDS_NUM, 52);
    assert_eq!(cardslib::HAND_SIZE, 5);
}

#[test]
fn encode_exact_codes() {
    assert_eq!(cardslib::encode(0, 0), Ok(0));
    assert_eq!(cardslib::encode(0, 12), Ok(12));
    assert_eq!(cardslib::encode(1, 0), Ok(13));
    assert_eq!(cardslib::encode(2, 5), Ok(31));
    assert_eq!(cardslib::encode(3, 12), Ok(51));
}

#[test]
fn decode_exact_cards() {
    assert_eq!(cardslib::decode(0), Ok((0, 0)));
    assert_eq!(cardslib::decode(12), Ok((0, 12)));
    assert_eq!(cardslib::decode(13), Ok((1, 0)));
    assert_eq!(cardslib::decode(31), Ok((2, 5)));
    assert_eq!(cardslib::decode(51), Ok((3, 12)));
}

#[test]
fn encode_rejects_suit_out_of_range() {
    assert_eq!(cardslib::encode(4, 0), Err(CardError::OutOfRange));
    assert_eq!(cardslib::encode(4, 12), Err(CardError::OutOfRange));
    assert_eq!(cardslib::encode(u32::MAX, 0), Err(CardError::OutOfRange));
}

#[test]
fn encode_rejects_number_out_of_range() {
    assert_eq!(cardslib::encode(0, 13), Err(CardError::OutOfRange));
    assert_eq!(cardslib::encode(3, 13), Err(CardError::OutOfRange));
    assert_eq!(cardslib::encode(0, u32::MAX), Err(CardError::OutOfRange));
    assert_eq!(cardslib::encode(4, 13), Err(CardError::OutOfRange));
}

#[test]
fn decode_rejects_code_out_of_range() {
    assert_eq!(cardslib::decode(52), Err(CardError::OutOfRange));
    assert_eq!(cardslib::decode(100), Err(CardError::OutOfRange));
    assert_eq!(cardslib::decode(u32::MAX), Err(CardError::OutOfRange));
}

#[test]
fn decode_then_encode_gives_the_code_back() {
    for code in 0u32..52u32 {
        let (suit, number) = cardslib::decode(code).unwrap();
        assert!(suit < SUIT_NUM);
        assert!(number < NUMBER_NUM);
        assert_eq!(cardslib::encode(suit, number), Ok(code));
    }
}

#[test]
fn encode_then_decode_gives_the_card_back() {
    for suit in 0u32..4u32 {
        for number in 0u32..13u32 {
            let code = cardslib::encode(suit, number).unwrap();
            assert!(code < CARDS_NUM);
            assert_eq!(cardslib::decode(code), Ok((suit, number)));
        }
    }
}

#[test]
fn all_codes_decode_to_distinct_cards() {
    let mut seen: Vec<(u32, u32)> = Vec::new();
    for code in 0u32..52u32 {
        let card = cardslib::decode(code).unwrap();
        assert!(!seen.contains(&card));
        seen.push(card);
    }
    assert_eq!(seen.len(), 52);
}
