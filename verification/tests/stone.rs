use hexboard::BoardError;
use hexboard::Player;
use hexboard::Stone;

#[test]
fn player_places_its_own_stone() {
    assert_eq!(Player::Black.stone(), Stone::Black);
    assert_eq!(Player::White.stone(), Stone::White);
}

#[test]
fn player_stone_is_never_blank() {
    for p in [Player::Black, Player::White] {
        assert_ne!(p.stone(), Stone::Blank);
    }
}

#[test]
fn player_names() {
    assert_eq!(Player::White.to_string(), "white");
    assert_eq!(Player::Black.to_string(), "black");
}

#[test]
fn stone_letters() {
    assert_eq!(Stone::Blank.to_string(), "O");
    assert_eq!(Stone::Black.to_string(), "B");
    assert_eq!(Stone::White.to_string(), "W");
}

#[test]
fn stone_numbers() {
    assert_eq!(Stone::Blank.number(), 0);
    assert_eq!(Stone::Black.number(), 1);
    assert_eq!(Stone::White.number(), 2);
}

#[test]
fn stone_from_number() {
    assert_eq!(Stone::from_number(0), Some(Stone::Blank));
    assert_eq!(Stone::from_number(1), Some(Stone::Black));
    assert_eq!(Stone::from_number(2), Some(Stone::White));
    assert_eq!(Stone::from_number(3), None);
    assert_eq!(Stone::from_number(u64::MAX), None);
}

#[test]
fn stone_number_round_trip() {
    for s in [Stone::Blank, Stone::Black, Stone::White] {
        assert_eq!(Stone::from_number(s.number()), Some(s));
    }
}

#[test]
fn stones_compare_by_equality() {
    assert_eq!(Stone::Black, Stone::Black);
    assert_ne!(Stone::Black, Stone::White);
    assert_ne!(Stone::Blank, Stone::White);
}

#[test]
fn error_descriptions() {
    assert_eq!(BoardError::InvalidCord.description(), "Invalid coordinates");
    assert_eq!(BoardError::InvalidVec.description(), "Invalid vec");
    assert_eq!(BoardError::InvalidMove.description(), "Invalid move");
}
