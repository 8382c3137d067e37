//! The key-signature name table: fifteen major and fifteen minor keys, keyed
//! by the signed sharps/flats count (stored as a two's-complement byte) and
//! the major/minor flag. Combinations outside the table fall back to "C".

use vstd::prelude::*;

verus! {

/// The key name for mode flag `mi` (0 major, 1 minor) and sharps/flats count
/// `sf` (two's-complement byte, -7 through 7).
pub open spec fn chord_name(mi: u8, sf: u8) -> Seq<char> {
    if mi == 0 {
        if sf == 0x00 {
            "C"@
        } else if sf == 0x01 {
            "G"@
        } else if sf == 0x02 {
            "D"@
        } else if sf == 0x03 {
            "A"@
        } else if sf == 0x04 {
            "E"@
        } else if sf == 0x05 {
            "B"@
        } else if sf == 0x06 {
            "F#"@
        } else if sf == 0x07 {
            "C#"@
        } else if sf == 0xff {
            "F"@
        } else if sf == 0xfe {
            "Bb"@
        } else if sf == 0xfd {
            "Eb"@
        } else if sf == 0xfc {
            "Ab"@
        } else if sf == 0xfb {
            "Db"@
        } else if sf == 0xfa {
            "Gb"@
        } else if sf == 0xf9 {
            "Cb"@
        } else {
            "C"@
        }
    } else if mi == 1 {
        if sf == 0x00 {
            "Am"@
        } else if sf == 0x01 {
            "Em"@
        } else if sf == 0x02 {
            "Bm"@
        } else if sf == 0x03 {
            "F#m"@
        } else if sf == 0x04 {
            "C#m"@
        } else if sf == 0x05 {
            "G#m"@
        } else if sf == 0x06 {
            "D#m"@
        } else if sf == 0x07 {
            "A#m"@
        } else if sf == 0xff {
            "Dm"@
        } else if sf == 0xfe {
            "Gm"@
        } else if sf == 0xfd {
            "Cm"@
        } else if sf == 0xfc {
            "Fm"@
        } else if sf == 0xfb {
            "Bbm"@
        } else if sf == 0xfa {
            "Ebm"@
        } else if sf == 0xf9 {
            "Abm"@
        } else {
            "C"@
        }
    } else {
        "C"@
    }
}

/// The (mode flag, sharps/flats byte) pair for a key name; names outside the
/// table map to C major.
pub open spec fn key_mi_sf(name: Seq<char>) -> (u8, u8) {
    if name == "C"@ {
        (0x00u8, 0x00u8)
    } else if name == "G"@ {
        (0x00u8, 0x01u8)
    } else if name == "D"@ {
        (0x00u8, 0x02u8)
    } else if name == "A"@ {
        (0x00u8, 0x03u8)
    } else if name == "E"@ {
        (0x00u8, 0x04u8)
    } else if name == "B"@ {
        (0x00u8, 0x05u8)
    } else if name == "F#"@ {
        (0x00u8, 0x06u8)
    } else if name == "C#"@ {
        (0x00u8, 0x07u8)
    } else if name == "F"@ {
        (0x00u8, 0xffu8)
    } else if name == "Bb"@ {
        (0x00u8, 0xfeu8)
    } else if name == "Eb"@ {
        (0x00u8, 0xfdu8)
    } else if name == "Ab"@ {
        (0x00u8, 0xfcu8)
    } else if name == "Db"@ {
        (0x00u8, 0xfbu8)
    } else if name == "Gb"@ {
        (0x00u8, 0xfau8)
    } else if name == "Cb"@ {
        (0x00u8, 0xf9u8)
    } else if name == "Am"@ {
        (0x01u8, 0x00u8)
    } else if name == "Em"@ {
        (0x01u8, 0x01u8)
    } else if name == "Bm"@ {
        (0x01u8, 0x02u8)
    } else if name == "F#m"@ {
        (0x01u8, 0x03u8)
    } else if name == "C#m"@ {
        (0x01u8, 0x04u8)
    } else if name == "G#m"@ {
        (0x01u8, 0x05u8)
    } else if name == "D#m"@ {
        (0x01u8, 0x06u8)
    } else if name == "A#m"@ {
        (0x01u8, 0x07u8)
    } else if name == "Dm"@ {
        (0x01u8, 0xffu8)
    } else if name == "Gm"@ {
        (0x01u8, 0xfeu8)
    } else if name == "Cm"@ {
        (0x01u8, 0xfdu8)
    } else if name == "Fm"@ {
        (0x01u8, 0xfcu8)
    } else if name == "Bbm"@ {
        (0x01u8, 0xfbu8)
    } else if name == "Ebm"@ {
        (0x01u8, 0xfau8)
    } else if name == "Abm"@ {
        (0x01u8, 0xf9u8)
    } else {
        (0x00u8, 0x00u8)
    }
}

/// True of the thirty names the table holds.
pub open spec fn is_key_name(name: Seq<char>) -> bool {
    ||| name == "C"@
    ||| name == "G"@
    ||| name == "D"@
    ||| name == "A"@
    ||| name == "E"@
    ||| name == "B"@
    ||| name == "F#"@
    ||| name == "C#"@
    ||| name == "F"@
    ||| name == "Bb"@
    ||| name == "Eb"@
    ||| name == "Ab"@
    ||| name == "Db"@
    ||| name == "Gb"@
    ||| name == "Cb"@
    ||| name == "Am"@
    ||| name == "Em"@
    ||| name == "Bm"@
    ||| name == "F#m"@
    ||| name == "C#m"@
    ||| name == "G#m"@
    ||| name == "D#m"@
    ||| name == "A#m"@
    ||| name == "Dm"@
    ||| name == "Gm"@
    ||| name == "Cm"@
    ||| name == "Fm"@
    ||| name == "Bbm"@
    ||| name == "Ebm"@
    ||| name == "Abm"@
}

proof fn reveal_key_names()
    ensures
        true,
{
    reveal_strlit("C");
    reveal_strlit("G");
    reveal_strlit("D");
    reveal_strlit("A");
    reveal_strlit("E");
    reveal_strlit("B");
    reveal_strlit("F#");
    reveal_strlit("C#");
    reveal_strlit("F");
    reveal_strlit("Bb");
    reveal_strlit("Eb");
    reveal_strlit("Ab");
    reveal_strlit("Db");
    reveal_strlit("Gb");
    reveal_strlit("Cb");
    reveal_strlit("Am");
    reveal_strlit("Em");
    reveal_strlit("Bm");
    reveal_strlit("F#m");
    reveal_strlit("C#m");
    reveal_strlit("G#m");
    reveal_strlit("D#m");
    reveal_strlit("A#m");
    reveal_strlit("Dm");
    reveal_strlit("Gm");
    reveal_strlit("Cm");
    reveal_strlit("Fm");
    reveal_strlit("Bbm");
    reveal_strlit("Ebm");
    reveal_strlit("Abm");
}

/// Law: every name in the table survives the trip through its byte pair.
pub proof fn lemma_key_name_round_trip(name: Seq<char>)
    requires
        is_key_name(name),
    ensures
        chord_name(key_mi_sf(name).0, key_mi_sf(name).1) == name,
{
    reveal_key_names();
}

/// Look a key name up by its mode flag and sharps/flats byte.
pub fn get_chord_name_from_mi_sf(mi: u8, sf: u8) -> (r: String)
    ensures
        r@ == chord_name(mi, sf),
{
    match (mi, sf) {
        (0x00, 0x00) => "C".to_owned(),
        (0x00, 0x01) => "G".to_owned(),
        (0x00, 0x02) => "D".to_owned(),
        (0x00, 0x03) => "A".to_owned(),
        (0x00, 0x04) => "E".to_owned(),
        (0x00, 0x05) => "B".to_owned(),
        (0x00, 0x06) => "F#".to_owned(),
        (0x00, 0x07) => "C#".to_owned(),
        (0x00, 0xff) => "F".to_owned(),
        (0x00, 0xfe) => "Bb".to_owned(),
        (0x00, 0xfd) => "Eb".to_owned(),
        (0x00, 0xfc) => "Ab".to_owned(),
        (0x00, 0xfb) => "Db".to_owned(),
        (0x00, 0xfa) => "Gb".to_owned(),
        (0x00, 0xf9) => "Cb".to_owned(),
        (0x01, 0x00) => "Am".to_owned(),
        (0x01, 0x01) => "Em".to_owned(),
        (0x01, 0x02) => "Bm".to_owned(),
        (0x01, 0x03) => "F#m".to_owned(),
        (0x01, 0x04) => "C#m".to_owned(),
        (0x01, 0x05) => "G#m".to_owned(),
        (0x01, 0x06) => "D#m".to_owned(),
        (0x01, 0x07) => "A#m".to_owned(),
        (0x01, 0xff) => "Dm".to_owned(),
        (0x01, 0xfe) => "Gm".to_owned(),
        (0x01, 0xfd) => "Cm".to_owned(),
        (0x01, 0xfc) => "Fm".to_owned(),
        (0x01, 0xfb) => "Bbm".to_owned(),
        (0x01, 0xfa) => "Ebm".to_owned(),
        (0x01, 0xf9) => "Abm".to_owned(),
        _ => "C".to_owned(),
    }
}

/// Look a key name's mode flag and sharps/flats byte up; unknown names read
/// as C major.
pub fn get_mi_sf(key: &String) -> (r: (u8, u8))
    ensures
        r == key_mi_sf(key@),
{
    if *key == String::from_str("C") {
        (0x00, 0x00)
    } else if *key == String::from_str("G") {
        (0x00, 0x01)
    } else if *key == String::from_str("D") {
        (0x00, 0x02)
    } else if *key == String::from_str("A") {
        (0x00, 0x03)
    } else if *key == String::from_str("E") {
        (0x00, 0x04)
    } else if *key == String::from_str("B") {
        (0x00, 0x05)
    } else if *key == String::from_str("F#") {
        (0x00, 0x06)
    } else if *key == String::from_str("C#") {
        (0x00, 0x07)
    } else if *key == String::from_str("F") {
        (0x00, 0xff)
    } else if *key == String::from_str("Bb") {
        (0x00, 0xfe)
    } else if *key == String::from_str("Eb") {
        (0x00, 0xfd)
    } else if *key == String::from_str("Ab") {
        (0x00, 0xfc)
    } else if *key == String::from_str("Db") {
        (0x00, 0xfb)
    } else if *key == String::from_str("Gb") {
        (0x00, 0xfa)
    } else if *key == String::from_str("Cb") {
        (0x00, 0xf9)
    } else if *key == String::from_str("Am") {
        (0x01, 0x00)
    } else if *key == String::from_str("Em") {
        (0x01, 0x01)
    } else if *key == String::from_str("Bm") {
        (0x01, 0x02)
    } else if *key == String::from_str("F#m") {
        (0x01, 0x03)
    } else if *key == String::from_str("C#m") {
        (0x01, 0x04)
    } else if *key == String::from_str("G#m") {
        (0x01, 0x05)
    } else if *key == String::from_str("D#m") {
        (0x01, 0x06)
    } else if *key == String::from_str("A#m") {
        (0x01, 0x07)
    } else if *key == String::from_str("Dm") {
        (0x01, 0xff)
    } else if *key == String::from_str("Gm") {
        (0x01, 0xfe)
    } else if *key == String::from_str("Cm") {
        (0x01, 0xfd)
    } else if *key == String::from_str("Fm") {
        (0x01, 0xfc)
    } else if *key == String::from_str("Bbm") {
        (0x01, 0xfb)
    } else if *key == String::from_str("Ebm") {
        (0x01, 0xfa)
    } else if *key == String::from_str("Abm") {
        (0x01, 0xf9)
    } else {
        (0x00, 0x00)
    }
}

} // verus!
