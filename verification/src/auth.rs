//! Prototype authentication: fixed users with salted FNV-1a password hashes.

use vstd::prelude::*;
use vstd::string::StringSliceAdditionalSpecFns;
use vstd::string::StrSliceExecFns;
use crate::cstr::{cstr, lemma_c_len_unique, streq};

verus! {

pub const FNV_OFFSET: u64 = 1_469_598_103_934_665_603;
pub const FNV_PRIME: u64 = 1_099_511_628_211;

/// Number of built-in users.
pub const AUTH_USER_COUNT: usize = 2;
/// Table index of the power user `root`.
pub const ROOT_USER: usize = 0;
/// Table index of the unprivileged user `guest`.
pub const GUEST_USER: usize = 1;

pub const ROOT_PASSWORD_HASH: u64 = 0x3684_f671_2bed_fc93;
pub const ROOT_SALT: u64 = 0x706c_6978_726f_6f74;
pub const GUEST_PASSWORD_HASH: u64 = 0xc824_e1f3_3535_3f6e;
pub const GUEST_SALT: u64 = 0x706c_6978_6775_6573;

/// One FNV-1a step: xor the byte in, multiply by the prime modulo 2^64.
pub open spec fn spec_hash_byte(hash: u64, value: u8) -> u64 {
    (((hash ^ (value as u64)) as nat * FNV_PRIME as nat) % 0x1_0000_0000_0000_0000) as u64
}

/// FNV-1a over a byte sequence, starting from `hash`.
pub open spec fn fnv_fold(hash: u64, bytes: Seq<u8>) -> u64
    decreases bytes.len(),
{
    if bytes.len() == 0 {
        hash
    } else {
        spec_hash_byte(fnv_fold(hash, bytes.drop_last()), bytes.last())
    }
}

/// The eight bytes of the salt, least significant first.
pub open spec fn salt_bytes(salt: u64) -> Seq<u8> {
    Seq::new(8, |i: int| (salt >> ((8 * i) as u64)) as u8)
}

/// The salted hash of a user name and a password: FNV-1a over the salt bytes,
/// the name, a colon and the password.
pub open spec fn spec_hash_password(name: Seq<u8>, password: Seq<u8>, salt: u64) -> u64 {
    fnv_fold(FNV_OFFSET, salt_bytes(salt) + cstr(name) + seq![58u8] + cstr(password))
}

/// Hashing a concatenation continues from the hash of the first part.
pub proof fn lemma_fnv_fold_concat(hash: u64, a: Seq<u8>, b: Seq<u8>)
    ensures
        fnv_fold(hash, a + b) == fnv_fold(fnv_fold(hash, a), b),
    decreases b.len(),
{
    if b.len() == 0 {
        assert(a + b =~= a);
    } else {
        assert((a + b).drop_last() =~= a + b.drop_last());
        lemma_fnv_fold_concat(hash, a, b.drop_last());
    }
}

proof fn lemma_fnv_fold_step(hash: u64, s: Seq<u8>, i: int)
    requires
        0 <= i < s.len(),
    ensures
        fnv_fold(hash, s.take(i + 1)) == spec_hash_byte(fnv_fold(hash, s.take(i)), s[i]),
{
    assert(s.take(i + 1).drop_last() =~= s.take(i));
}

/// One FNV-1a step.
pub fn hash_byte(hash: u64, value: u8) -> (r: u64)
    ensures
        r == spec_hash_byte(hash, value),
{
    (hash ^ (value as u64)).wrapping_mul(FNV_PRIME)
}

/// Feeds the string held by `s` into the hash.
fn hash_cstr(hash: u64, s: &[u8]) -> (r: u64)
    ensures
        r == fnv_fold(hash, cstr(s@)),
{
    let mut h = hash;
    let mut i: usize = 0;
    while i < s.len() && s[i] != 0
        invariant
            i <= s@.len(),
            forall|j: int| 0 <= j < i ==> s@[j] != 0,
            h == fnv_fold(hash, s@.take(i as int)),
        decreases s@.len() - i,
    {
        proof {
            lemma_fnv_fold_step(hash, s@, i as int);
        }
        h = hash_byte(h, s[i]);
        i = i + 1;
    }
    proof {
        lemma_c_len_unique(s@, i as nat);
    }
    h
}

/// The salted password hash of `name` and `password`.
pub fn plix_auth_hash_password(name: &[u8], password: &[u8], salt: u64) -> (hash: u64)
    ensures
        hash == spec_hash_password(name@, password@, salt),
{
    let mut hash = FNV_OFFSET;
    let mut k: u64 = 0;
    while k < 8
        invariant
            k <= 8,
            hash == fnv_fold(FNV_OFFSET, salt_bytes(salt).take(k as int)),
        decreases 8 - k,
    {
        proof {
            lemma_fnv_fold_step(FNV_OFFSET, salt_bytes(salt), k as int);
        }
        hash = hash_byte(hash, (salt >> (k * 8)) as u8);
        k = k + 1;
    }
    let ghost h_salt = hash;
    assert(salt_bytes(salt).take(8) =~= salt_bytes(salt));
    hash = hash_cstr(hash, name);
    hash = hash_byte(hash, 58u8);
    assert(fnv_fold(h_salt, cstr(name@) + seq![58u8]) == hash) by {
        assert((cstr(name@) + seq![58u8]).drop_last() =~= cstr(name@));
    }
    let ghost h_name = hash;
    hash = hash_cstr(hash, password);
    proof {
        let a = salt_bytes(salt);
        let b = cstr(name@) + seq![58u8];
        let c = cstr(password@);
        lemma_fnv_fold_concat(FNV_OFFSET, a, b);
        lemma_fnv_fold_concat(FNV_OFFSET, a + b, c);
        assert(a + cstr(name@) + seq![58u8] + c =~= (a + b) + c);
    }
    hash
}

/// A user of the built-in table.
pub struct PlixUser {
    pub name: Vec<u8>,
    pub password_hash: u64,
    pub salt: u64,
    pub power_user: i32,
}

/// Name of table entry `i`.
pub open spec fn user_name(i: int) -> Seq<u8> {
    if i == ROOT_USER { "root".spec_bytes() } else { "guest".spec_bytes() }
}

/// Stored password hash of table entry `i`.
pub open spec fn user_password_hash(i: int) -> u64 {
    if i == ROOT_USER { ROOT_PASSWORD_HASH } else { GUEST_PASSWORD_HASH }
}

/// Salt of table entry `i`.
pub open spec fn user_salt(i: int) -> u64 {
    if i == ROOT_USER { ROOT_SALT } else { GUEST_SALT }
}

/// Power-user flag of table entry `i`.
pub open spec fn user_power(i: int) -> i32 {
    if i == ROOT_USER { 1 } else { 0 }
}

/// Entry `i` accepts `name` and `password`.
pub open spec fn user_accepts(i: int, name: Seq<u8>, password: Seq<u8>) -> bool {
    &&& cstr(user_name(i)) == cstr(name)
    &&& user_password_hash(i) == spec_hash_password(name, password, user_salt(i))
}

/// The first table entry, from `from` on, that accepts `name` and `password`.
pub open spec fn first_accepting(name: Seq<u8>, password: Seq<u8>, from: int) -> Option<usize>
    decreases AUTH_USER_COUNT - from,
{
    if from < 0 || from >= AUTH_USER_COUNT {
        None
    } else if user_accepts(from, name, password) {
        Some(from as usize)
    } else {
        first_accepting(name, password, from + 1)
    }
}

/// The built-in users.
fn users() -> (table: Vec<PlixUser>)
    ensures
        table.len() == AUTH_USER_COUNT,
        forall|i: int|
            0 <= i < AUTH_USER_COUNT ==> {
                &&& (#[trigger] table[i]).name@ == user_name(i)
                &&& table[i].password_hash == user_password_hash(i)
                &&& table[i].salt == user_salt(i)
                &&& table[i].power_user == user_power(i)
            },
{
    let mut table: Vec<PlixUser> = Vec::new();
    table.push(
        PlixUser {
            name: "root".as_bytes_vec(),
            password_hash: ROOT_PASSWORD_HASH,
            salt: ROOT_SALT,
            power_user: 1,
        },
    );
    table.push(
        PlixUser {
            name: "guest".as_bytes_vec(),
            password_hash: GUEST_PASSWORD_HASH,
            salt: GUEST_SALT,
            power_user: 0,
        },
    );
    table
}

/// A login session: which user of the table it belongs to, if any, and
/// whether it is authenticated.
pub struct PlixSession {
    pub user: Option<usize>,
    pub authenticated: i32,
}

impl PlixSession {
    /// The session refers to an entry of the user table.
    pub open spec fn wf(&self) -> bool {
        match self.user {
            Some(i) => i < AUTH_USER_COUNT,
            None => true,
        }
    }

    /// A session with no user.
    pub fn new() -> (s: PlixSession)
        ensures
            s.wf(),
            s.user is None,
            s.authenticated == 0,
    {
        PlixSession { user: None, authenticated: 0 }
    }
}

/// Starts the boot session as the authenticated guest.
pub fn plix_auth_init(session: &mut PlixSession)
    ensures
        final(session).user == Some(GUEST_USER),
        final(session).authenticated == 1,
{
    session.user = Some(GUEST_USER);
    session.authenticated = 1;
}

/// Logs in as the first user whose name equals `name` and whose stored hash
/// equals the hash of `name` and `password`. Returns 0 on success and -1, with
/// the session unchanged, when no user accepts.
pub fn plix_auth_login(session: &mut PlixSession, name: &[u8], password: &[u8]) -> (rc: i32)
    requires
        old(session).wf(),
    ensures
        final(session).wf(),
        match first_accepting(name@, password@, 0) {
            Some(i) => {
                &&& rc == 0
                &&& final(session).user == Some(i)
                &&& final(session).authenticated == 1
            },
            None => {
                &&& rc == -1
                &&& *final(session) == *old(session)
            },
        },
{
    let table = users();
    let mut i: usize = 0;
    while i < table.len()
        invariant
            i <= AUTH_USER_COUNT,
            table.len() == AUTH_USER_COUNT,
            forall|j: int|
                0 <= j < AUTH_USER_COUNT ==> {
                    &&& (#[trigger] table[j]).name@ == user_name(j)
                    &&& table[j].password_hash == user_password_hash(j)
                    &&& table[j].salt == user_salt(j)
                    &&& table[j].power_user == user_power(j)
                },
            first_accepting(name@, password@, 0) == first_accepting(name@, password@, i as int),
            *session == *old(session),
        decreases AUTH_USER_COUNT - i,
    {
        let user = &table[i];
        if streq(user.name.as_slice(), name)
            && user.password_hash == plix_auth_hash_password(name, password, user.salt) {
            session.user = Some(i);
            session.authenticated = 1;
            return 0;
        }
        i = i + 1;
    }
    -1
}

/// 1 when `password` is the password of the session's user, 0 otherwise or
/// when the session has no user.
pub fn plix_auth_check_password(session: &PlixSession, password: &[u8]) -> (ok: i32)
    requires
        session.wf(),
    ensures
        ok == match session.user {
            Some(i) => if user_password_hash(i as int) == spec_hash_password(
                user_name(i as int),
                password@,
                user_salt(i as int),
            ) {
                1i32
            } else {
                0i32
            },
            None => 0i32,
        },
{
    match session.user {
        None => 0,
        Some(i) => {
            let table = users();
            let user = &table[i];
            if user.password_hash == plix_auth_hash_password(user.name.as_slice(), password, user.salt) {
                1
            } else {
                0
            }
        },
    }
}

/// Name of the session's user, or `none`.
pub fn plix_auth_user_name(session: &PlixSession) -> (name: Vec<u8>)
    requires
        session.wf(),
    ensures
        name@ == match session.user {
            Some(i) => user_name(i as int),
            None => "none".spec_bytes(),
        },
{
    match session.user {
        None => "none".as_bytes_vec(),
        Some(i) => {
            let table = users();
            let user = &table[i];
            user.name.clone()
        },
    }
}

/// 1 when the session has a user, is authenticated and the user is a power user.
pub fn plix_auth_is_power_user(session: &PlixSession) -> (power: i32)
    requires
        session.wf(),
    ensures
        power == (match session.user {
            Some(i) => if session.authenticated != 0 && user_power(i as int) != 0 { 1i32 } else { 0i32 },
            None => 0i32,
        }),
{
    match session.user {
        None => 0,
        Some(i) => {
            let table = users();
            if session.authenticated != 0 && table[i].power_user != 0 {
                1
            } else {
                0
            }
        },
    }
}

/// The hash of a name and password depends on the name only through the
/// string it holds.
pub proof fn lemma_hash_by_string(name: Seq<u8>, other: Seq<u8>, password: Seq<u8>, salt: u64)
    requires
        cstr(name) == cstr(other),
    ensures
        spec_hash_password(name, password, salt) == spec_hash_password(other, password, salt),
{
}

/// A user that a login accepted is the user the session then belongs to, and
/// that user's password check accepts the password that logged in.
pub proof fn law_login_then_check_password(name: Seq<u8>, password: Seq<u8>)
    requires
        first_accepting(name, password, 0) is Some,
    ensures
        ({
            let i = first_accepting(name, password, 0).unwrap();
            &&& i < AUTH_USER_COUNT
            &&& user_accepts(i as int, name, password)
            &&& user_password_hash(i as int) == spec_hash_password(user_name(i as int), password, user_salt(i as int))
        }),
{
    let i = first_accepting(name, password, 0).unwrap();
    if user_accepts(0, name, password) {
        assert(i == 0);
    } else {
        assert(first_accepting(name, password, 0) == first_accepting(name, password, 1));
        assert(first_accepting(name, password, 2) is None);
        assert(user_accepts(1, name, password));
        assert(i == 1);
    }
    lemma_hash_by_string(name, user_name(i as int), password, user_salt(i as int));
}

/// Only `root` is a power user.
pub proof fn law_only_root_is_power_user(i: int)
    requires
        0 <= i < AUTH_USER_COUNT,
    ensures
        (user_power(i) != 0) <==> (i == ROOT_USER),
{
}

/// Hashing a byte is hashing a zero byte after xoring the byte's unsigned value
/// (zero-extended, 0 to 255) into the hash.
pub proof fn law_hash_byte_xors_unsigned_value(hash: u64, value: u8)
    ensures
        spec_hash_byte(hash, value) == spec_hash_byte(hash ^ (value as u64), 0),
{
    assert((hash ^ (value as u64)) ^ (0u8 as u64) == hash ^ (value as u64)) by (bit_vector);
}

/// A hashed byte only changes the low eight bits of the hash before the
/// multiplication by the FNV prime modulo 2^64.
pub proof fn law_hash_byte_touches_low_bits(hash: u64, value: u8)
    ensures
        spec_hash_byte(hash, value) == ((((hash >> 8u64) << 8u64) | ((hash & 0xffu64) ^ (value as u64))) as nat
            * FNV_PRIME as nat % 0x1_0000_0000_0000_0000) as u64,
{
    assert(hash ^ (value as u64) == ((hash >> 8u64) << 8u64) | ((hash & 0xffu64) ^ (value as u64))) by (bit_vector);
}

proof fn lemma_first_accepting_from(name: Seq<u8>, password: Seq<u8>, from: int)
    requires
        0 <= from,
    ensures
        match first_accepting(name, password, from) {
            Some(i) => from <= i < AUTH_USER_COUNT && user_accepts(i as int, name, password)
                && forall|j: int| from <= j < i ==> !#[trigger] user_accepts(j, name, password),
            None => forall|j: int| from <= j < AUTH_USER_COUNT ==> !#[trigger] user_accepts(j, name, password),
        },
    decreases AUTH_USER_COUNT - from,
{
    if from < AUTH_USER_COUNT {
        lemma_first_accepting_from(name, password, from + 1);
    }
}

/// A login succeeds exactly when some user of the table accepts the name and
/// password, and it logs in as the first such user.
pub proof fn law_login_takes_first_accepting(name: Seq<u8>, password: Seq<u8>)
    ensures
        (first_accepting(name, password, 0) is Some) <==> (exists|j: int|
            0 <= j < AUTH_USER_COUNT && #[trigger] user_accepts(j, name, password)),
        first_accepting(name, password, 0) matches Some(i) ==> user_accepts(i as int, name, password)
            && forall|j: int| 0 <= j < i ==> !#[trigger] user_accepts(j, name, password),
{
    lemma_first_accepting_from(name, password, 0);
}

} // verus!
