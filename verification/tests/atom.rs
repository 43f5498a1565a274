use hammerfest_autosplitter::atom::{
    as_bool, as_int, decode_double, double_at, ptr, tag, FALSE, NULL, TAG_DOUBLE, TAG_OBJECT, TRUE,
};
use hammerfest_autosplitter::heap::Number;

#[test]
fn decode_les_entiers_positifs() {
    assert_eq!(as_int(9 << 3), Some(9));
    assert_eq!(as_int(0), Some(0));
}

#[test]
fn decode_les_entiers_negatifs() {
    // `portalId` = -1, tel qu'observe dans la table GameMode.
    assert_eq!(as_int(0xffff_ffff_ffff_fff8), Some(-1));
    assert_eq!(as_int((-42i64 as u64) << 3 & !7), Some(-42));
}

#[test]
fn refuse_ce_qui_n_est_pas_un_entier() {
    for atom in [TRUE, FALSE, NULL, 0x4d6381a94dd] {
        assert_eq!(as_int(atom), None, "atome {atom:#x}");
    }
}

#[test]
fn decode_les_booleens() {
    assert_eq!(as_bool(TRUE), Some(true));
    assert_eq!(as_bool(FALSE), Some(false));
    // null n'est ni vrai ni faux : le confondre avec faux ferait passer
    // une partie en pause pour une partie en cours.
    assert_eq!(as_bool(NULL), None);
    assert_eq!(as_bool(0), None);
}

#[test]
fn separe_les_tags_des_pointeurs() {
    let atom = 0x4d6381a94d8 | TAG_OBJECT;
    assert_eq!(tag(atom), TAG_OBJECT);
    assert_eq!(ptr(atom), 0x4d6381a94d8);
}

#[test]
fn decodes_positive_integers() {
    assert_eq!(as_int(9 << 3), Some(9));
    assert_eq!(as_int(0), Some(0));
}

#[test]
fn decodes_negative_integers() {
    // `portalId` = -1, as observed in the GameMode table.
    assert_eq!(as_int(0xffff_ffff_ffff_fff8), Some(-1));
    assert_eq!(as_int((-42i64 as u64) << 3 & !7), Some(-42));
}

#[test]
fn rejects_what_is_not_an_integer() {
    for atom in [TRUE, FALSE, NULL, 0x4d6381a94dd] {
        assert_eq!(as_int(atom), None, "atom {atom:#x}");
    }
}

#[test]
fn decodes_booleans() {
    assert_eq!(as_bool(TRUE), Some(true));
    assert_eq!(as_bool(FALSE), Some(false));
    // null is neither true nor false. If we read it as false, a paused
    // game would look like a running game.
    assert_eq!(as_bool(NULL), None);
    assert_eq!(as_bool(0), None);
}

#[test]
fn decodes_floats() {
    // `duration` as read at the end of a game: 14815.6 cycles.
    let raw = 14815.6f64.to_bits();
    match decode_double(raw) {
        Number::Double(bits) => assert_eq!(f64::from_bits(bits), 14815.6),
        Number::Int(_) => panic!("a float read as an integer"),
    }

    let atom = 0x4d6381a94d8 | TAG_DOUBLE;
    assert_eq!(double_at(atom), Some(0x4d6381a94d8));
    // An integer is not a float. If we read it as one, we would read eight
    // bytes at an address that is not an address.
    assert_eq!(double_at(9 << 3), None);
    assert_eq!(double_at(TRUE), None);
}

#[test]
fn separates_tags_from_pointers() {
    let atom = 0x4d6381a94d8 | TAG_OBJECT;
    assert_eq!(tag(atom), TAG_OBJECT);
    assert_eq!(ptr(atom), 0x4d6381a94d8);
}
