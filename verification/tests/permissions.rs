use synac_client::permissions::{from_perm_string, to_perm_string, Permissions};

const PERMS: Permissions = Permissions { read: 1, write: 2, manage_channels: 4, manage_messages: 8 };

fn applied(input: &str, bitmask: u8) -> (bool, u8) {
    let mut bitmask = bitmask;
    let ok = from_perm_string(input, &mut bitmask, &PERMS);
    (ok, bitmask)
}

#[test]
fn permissions_are_written_as_letters() {
    assert_eq!(to_perm_string(0, &PERMS), "");
    assert_eq!(to_perm_string(1, &PERMS), "+r");
    assert_eq!(to_perm_string(3, &PERMS), "+rw");
    assert_eq!(to_perm_string(12, &PERMS), "+cm");
    assert_eq!(to_perm_string(15, &PERMS), "+rwcm");
}

#[test]
fn a_bitmask_of_other_bits_has_no_letters() {
    assert_eq!(to_perm_string(64, &PERMS), "+");
}

#[test]
fn a_permission_of_two_bits_needs_both() {
    let perms = Permissions { read: 3, write: 0, manage_channels: 4, manage_messages: 8 };
    assert_eq!(to_perm_string(1, &perms), "+w");
    assert_eq!(to_perm_string(0, &perms), "w");
    assert_eq!(to_perm_string(3, &perms), "+rw");
}

#[test]
fn letters_grant_and_revoke() {
    assert_eq!(applied("", 5), (true, 5));
    assert_eq!(applied("rw", 0), (true, 3));
    assert_eq!(applied("-r", 3), (true, 2));
    assert_eq!(applied("+c-w +m", 2), (true, 12));
    assert_eq!(applied("r-r", 0), (true, 0));
}

#[test]
fn an_unknown_letter_stops_half_way() {
    assert_eq!(applied("rxw", 0), (false, 1));
    assert_eq!(applied("\t", 6), (false, 6));
}

#[test]
fn written_permissions_are_read_back() {
    for bitmask in 0..16u8 {
        assert_eq!(applied(&to_perm_string(bitmask, &PERMS), 0), (true, bitmask));
    }
}

#[test]
fn written_permissions_only_grant() {
    assert_eq!(applied(&to_perm_string(1, &PERMS), 10), (true, 11));
}

#[test]
fn other_bits_stay() {
    assert_eq!(applied("-rwcm", 0xff), (true, 0xf0));
    assert_eq!(applied("rwcm", 0x50), (true, 0x5f));
}
