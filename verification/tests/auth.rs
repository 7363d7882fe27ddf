use plix::auth::{
    hash_byte, plix_auth_check_password, plix_auth_hash_password, plix_auth_init,
    plix_auth_is_power_user, plix_auth_login, plix_auth_user_name, PlixSession, GUEST_SALT,
    GUEST_USER, ROOT_SALT, ROOT_USER,
};

#[test]
fn hash_byte_of_zero_is_zero() {
    assert_eq!(hash_byte(0, 0), 0);
}

#[test]
fn hash_byte_is_one_fnv_step() {
    assert_eq!(hash_byte(1_469_598_103_934_665_603, b'a'), 0x44bd_8ad4_73cd_9906);
}

#[test]
fn hash_of_root_password_matches_table() {
    assert_eq!(plix_auth_hash_password(b"root", b"plixroot", ROOT_SALT), 0x3684_f671_2bed_fc93);
}

#[test]
fn hash_of_guest_password_matches_table() {
    assert_eq!(plix_auth_hash_password(b"guest", b"guest", GUEST_SALT), 0xc824_e1f3_3535_3f6e);
}

#[test]
fn hash_of_empty_strings() {
    assert_eq!(plix_auth_hash_password(b"", b"", 0), 0xe302_c744_4ed5_13bb);
}

#[test]
fn hash_stops_at_zero_byte() {
    assert_eq!(
        plix_auth_hash_password(b"root\0junk", b"plixroot\0more", ROOT_SALT),
        plix_auth_hash_password(b"root", b"plixroot", ROOT_SALT)
    );
}

#[test]
fn new_session_has_no_user() {
    let s = PlixSession::new();
    assert_eq!(s.user, None);
    assert_eq!(s.authenticated, 0);
    assert_eq!(plix_auth_user_name(&s), b"none".to_vec());
    assert_eq!(plix_auth_is_power_user(&s), 0);
    assert_eq!(plix_auth_check_password(&s, b"guest"), 0);
}

#[test]
fn init_starts_guest_session() {
    let mut s = PlixSession::new();
    plix_auth_init(&mut s);
    assert_eq!(s.user, Some(GUEST_USER));
    assert_eq!(s.authenticated, 1);
    assert_eq!(plix_auth_user_name(&s), b"guest".to_vec());
    assert_eq!(plix_auth_is_power_user(&s), 0);
}

#[test]
fn root_login_gives_power_user() {
    let mut s = PlixSession::new();
    plix_auth_init(&mut s);
    assert_eq!(plix_auth_login(&mut s, b"root", b"plixroot"), 0);
    assert_eq!(s.user, Some(ROOT_USER));
    assert_eq!(s.authenticated, 1);
    assert_eq!(plix_auth_user_name(&s), b"root".to_vec());
    assert_eq!(plix_auth_is_power_user(&s), 1);
    assert_eq!(plix_auth_check_password(&s, b"plixroot"), 1);
    assert_eq!(plix_auth_check_password(&s, b"guest"), 0);
}

#[test]
fn wrong_password_is_refused_and_session_kept() {
    let mut s = PlixSession::new();
    plix_auth_init(&mut s);
    assert_eq!(plix_auth_login(&mut s, b"root", b"wrong"), -1);
    assert_eq!(s.user, Some(GUEST_USER));
    assert_eq!(s.authenticated, 1);
}

#[test]
fn unknown_user_is_refused() {
    let mut s = PlixSession::new();
    assert_eq!(plix_auth_login(&mut s, b"nobody", b"guest"), -1);
    assert_eq!(s.user, None);
}

#[test]
fn guest_login_is_not_power_user() {
    let mut s = PlixSession::new();
    assert_eq!(plix_auth_login(&mut s, b"guest", b"guest"), 0);
    assert_eq!(s.user, Some(GUEST_USER));
    assert_eq!(plix_auth_is_power_user(&s), 0);
    assert_eq!(plix_auth_check_password(&s, b"guest"), 1);
}

#[test]
fn unauthenticated_root_is_not_power_user() {
    let s = PlixSession { user: Some(ROOT_USER), authenticated: 0 };
    assert_eq!(plix_auth_is_power_user(&s), 0);
}
