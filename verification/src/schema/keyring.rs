//! The key-wrapping keyring.
//!
//! The database's master key is random, never derived from a passphrase. It
//! is stored only wrapped, in independent slots, any one of which unwraps
//! it: a passphrase slot (Argon2id, since a human-chosen secret must be
//! expensive to guess), a recovery slot (HKDF-SHA256 over the 256-bit
//! recovery key) and a sensitive-content slot (Argon2id again). Each slot
//! has its own random salt and nonce, and holds the master key sealed with
//! AES-256-GCM under the key its secret derives. Adding, replacing or
//! removing a slot never changes the master key.
use vstd::prelude::*;
use vstd::string::{StringExecFns, StringSliceAdditionalSpecFns};
use vstd::utf8::{encode_utf8, is_continuation_byte};

use crate::schema::crypto::{
    aead_error_text, aes_gcm_open, aes_gcm_opened, aes_gcm_seal, argon2_accepts, argon2_error_text,
    argon2_params_ok, argon2id_hash, argon2id_key, fill_random, hkdf_error_text, hkdf_sha256,
    hkdf_sha256_key, KeyBytes,
};
use crate::schema::error::SchemaError;
use crate::schema::recovery::RecoveryKey;
use crate::text::push_char;

verus! {

/// Length of the master key in bytes (AES-256).
pub const MASTER_KEY_LEN: usize = 32;

/// AES-GCM nonce length in bytes.
pub const NONCE_LEN: usize = 12;

/// Per-slot salt length in bytes.
pub const SALT_LEN: usize = 16;

/// The keyring format version this build reads and writes.
pub const KEYRING_VERSION: u32 = 1;

/// Argon2id memory cost for passphrase slots, in KiB (64 MiB).
pub const ARGON2_M_COST: u32 = 65536;

/// Argon2id iterations for passphrase slots.
pub const ARGON2_T_COST: u32 = 3;

/// Argon2id parallelism for passphrase slots.
pub const ARGON2_P_COST: u32 = 1;

/// The unwrapped master key. It has no `Debug` rendering of its bytes; see
/// [`MasterKey::debug_repr`].
#[derive(Clone)]
pub struct MasterKey([u8; MASTER_KEY_LEN]);

impl View for MasterKey {
    type V = Seq<u8>;

    closed spec fn view(&self) -> Seq<u8> {
        self.0@
    }
}

/// Lowercase hexadecimal digit for `d < 16`.
pub open spec fn hex_digit(d: int) -> char {
    if d < 10 {
        (48 + d) as char
    } else {
        (87 + d) as char
    }
}

/// `bytes` as lowercase hexadecimal, two digits per byte.
pub open spec fn hex_spec(bytes: Seq<u8>) -> Seq<char> {
    Seq::new(
        2 * bytes.len(),
        |i: int|
            if i % 2 == 0 {
                hex_digit((bytes[i / 2] / 16) as int)
            } else {
                hex_digit((bytes[i / 2] % 16) as int)
            },
    )
}

/// The value of one hexadecimal digit byte, either case.
pub open spec fn hex_value(c: u8) -> Option<u8> {
    if 48 <= c <= 57 {
        Some((c - 48) as u8)
    } else if 97 <= c <= 102 {
        Some((c - 87) as u8)
    } else if 65 <= c <= 70 {
        Some((c - 55) as u8)
    } else {
        None
    }
}

/// What `u8::from_str_radix(.., 16)` makes of the two bytes `c0 c1`: a
/// leading `+` is a sign, otherwise both must be digits.
pub open spec fn pair_value(c0: u8, c1: u8) -> Option<u8> {
    if c0 == 0x2b {
        hex_value(c1)
    } else {
        match (hex_value(c0), hex_value(c1)) {
            (Some(h), Some(l)) => Some((h * 16 + l) as u8),
            _ => None,
        }
    }
}

/// The first `n` byte pairs of `b` decoded, or `None` at the first pair
/// that does not decode.
pub open spec fn hex_pairs(b: Seq<u8>, n: nat) -> Option<Seq<u8>>
    decreases n,
{
    if n == 0 {
        Some(Seq::empty())
    } else {
        match hex_pairs(b, (n - 1) as nat) {
            None => None,
            Some(p) => match pair_value(b[2 * n - 2], b[2 * n - 1]) {
                None => None,
                Some(v) => Some(p.push(v)),
            },
        }
    }
}

/// What [`from_hex`] returns for the UTF-8 bytes `b`.
pub open spec fn from_hex_spec(b: Seq<u8>) -> Result<Seq<u8>, &'static str> {
    if b.len() % 2 != 0 {
        Err("odd-length hex string")
    } else {
        match hex_pairs(b, b.len() / 2) {
            Some(v) => Ok(v),
            None => Err("invalid hex digit"),
        }
    }
}

/// Whether decoding `b` pair by pair never slices inside a character: each
/// pair reached (every pair before it decoded) ends on a character boundary.
pub open spec fn hex_slices_whole(b: Seq<u8>) -> bool {
    b.len() % 2 == 0 ==> forall|n: nat|
        #![trigger hex_pairs(b, n)]
        2 * n + 2 < b.len() && hex_pairs(b, n) is Some ==> !is_continuation_byte(b[2 * n + 2 as int])
}

/// `bytes` as lowercase hexadecimal.
pub fn to_hex(bytes: &[u8]) -> (s: String)
    ensures
        s@ == hex_spec(bytes@),
{
    let mut s = String::new();
    let mut i: usize = 0;
    while i < bytes.len()
        invariant
            i <= bytes@.len(),
            s@ == hex_spec(bytes@).take(2 * i),
        decreases bytes@.len() - i,
    {
        let b = bytes[i];
        let hi = b / 16;
        let lo = b % 16;
        let ch = if hi < 10 { (48 + hi) as char } else { (87 + hi) as char };
        let cl = if lo < 10 { (48 + lo) as char } else { (87 + lo) as char };
        push_char(&mut s, ch);
        push_char(&mut s, cl);
        assert(hex_spec(bytes@).take(2 * i + 2) =~= hex_spec(bytes@).take(2 * i).push(ch).push(cl));
        i += 1;
    }
    assert(hex_spec(bytes@).take(2 * i) =~= hex_spec(bytes@));
    s
}

/// The value of one hexadecimal digit byte.
fn hex_value_of(c: u8) -> (r: Option<u8>)
    ensures
        r == hex_value(c),
{
    if 48 <= c && c <= 57 {
        Some(c - 48)
    } else if 97 <= c && c <= 102 {
        Some(c - 87)
    } else if 65 <= c && c <= 70 {
        Some(c - 55)
    } else {
        None
    }
}

/// Decodes hexadecimal text (either case) into bytes, two digits per byte.
/// Refuses an odd number of bytes and a pair that is not a number in base
/// 16; a pair may carry a leading `+`.
pub fn from_hex(s: &str) -> (r: Result<Vec<u8>, &'static str>)
    requires
        hex_slices_whole(s.spec_bytes()),
    ensures
        match from_hex_spec(s.spec_bytes()) {
            Ok(v) => r matches Ok(out) && out@ == v,
            Err(why) => r == Err::<Vec<u8>, &'static str>(why),
        },
{
    let b = s.as_bytes();
    if b.len() % 2 != 0 {
        return Err("odd-length hex string");
    }
    let mut out: Vec<u8> = Vec::new();
    let mut n: usize = 0;
    while n < b.len() / 2
        invariant
            b@ == s.spec_bytes(),
            b@.len() % 2 == 0,
            n <= b@.len() / 2,
            hex_pairs(b@, n as nat) == Some(out@),
        decreases b@.len() / 2 - n,
    {
        let c0 = b[2 * n];
        let c1 = b[2 * n + 1];
        let v = hex_value_pair(c0, c1);
        match v {
            None => {
                assert(hex_pairs(b@, (n + 1) as nat) is None);
                proof {
                    lemma_hex_pairs_stay_none(b@, (n + 1) as nat, b@.len() / 2);
                }
                return Err("invalid hex digit");
            },
            Some(x) => {
                out.push(x);
            },
        }
        n += 1;
    }
    Ok(out)
}

/// Whether [`from_hex`] can decode `s` without slicing inside a character,
/// which is what its `requires` asks of a caller.
pub fn hex_slices_whole_of(s: &str) -> (ok: bool)
    ensures
        ok == hex_slices_whole(s.spec_bytes()),
{
    let b = s.as_bytes();
    if b.len() % 2 != 0 {
        return true;
    }
    let mut n: usize = 0;
    while n < b.len() / 2
        invariant
            b@ == s.spec_bytes(),
            b@.len() % 2 == 0,
            n <= b@.len() / 2,
            hex_pairs(b@, n as nat) is Some,
            forall|m: nat|
                #![trigger hex_pairs(b@, m)]
                m < n && 2 * m + 2 < b@.len() && hex_pairs(b@, m) is Some ==> !is_continuation_byte(
                    b@[2 * m + 2 as int],
                ),
        decreases b@.len() / 2 - n,
    {
        if 2 * n + 2 < b.len() && 0x80 <= b[2 * n + 2] && b[2 * n + 2] <= 0xbf {
            assert(!hex_slices_whole(b@));
            return false;
        }
        if hex_value_pair(b[2 * n], b[2 * n + 1]).is_none() {
            assert(hex_pairs(b@, (n + 1) as nat) is None);
            assert forall|m: nat|
                #![trigger hex_pairs(b@, m)]
                2 * m + 2 < b@.len() && hex_pairs(b@, m) is Some implies !is_continuation_byte(
                    b@[2 * m + 2 as int],
                ) by {
                if m > n {
                    lemma_hex_pairs_stay_none(b@, (n + 1) as nat, m);
                }
            }
            return true;
        }
        n += 1;
    }
    true
}

/// [`pair_value`], computed.
fn hex_value_pair(c0: u8, c1: u8) -> (r: Option<u8>)
    ensures
        r == pair_value(c0, c1),
{
    if c0 == 0x2b {
        hex_value_of(c1)
    } else {
        match (hex_value_of(c0), hex_value_of(c1)) {
            (Some(h), Some(l)) => Some(h * 16 + l),
            _ => None,
        }
    }
}

proof fn lemma_hex_pairs_stay_none(b: Seq<u8>, n: nat, m: nat)
    requires
        n <= m,
        hex_pairs(b, n) is None,
    ensures
        hex_pairs(b, m) is None,
    decreases m - n,
{
    if n < m {
        lemma_hex_pairs_stay_none(b, n + 1, m);
        assert(hex_pairs(b, n + 1) is None);
    }
}

/// Hex decoding inverts hex encoding.
pub proof fn lemma_hex_round_trip(bytes: Seq<u8>)
    ensures
        from_hex_spec(encode_utf8(hex_spec(bytes))) == Ok::<Seq<u8>, &'static str>(bytes),
{
    let h = hex_spec(bytes);
    assert(vstd::utf8::is_ascii_chars(h)) by {
        assert forall|i: int| 0 <= i < h.len() implies '\0' <= #[trigger] h[i] <= '\u{7f}' by {
            assert(0 <= i / 2 < bytes.len());
        }
    }
    vstd::utf8::is_ascii_chars_encode_utf8(h);
    let e = encode_utf8(h);
    assert forall|n: nat| n <= bytes.len() implies #[trigger] hex_pairs(e, n) == Some(
        bytes.take(n as int),
    ) by {
        lemma_hex_pairs_prefix(bytes, e, n);
    }
    assert(hex_pairs(e, bytes.len()) == Some(bytes.take(bytes.len() as int)));
    assert(bytes.take(bytes.len() as int) =~= bytes);
    assert(e.len() / 2 == bytes.len());
}

proof fn lemma_hex_pairs_prefix(bytes: Seq<u8>, e: Seq<u8>, n: nat)
    requires
        n <= bytes.len(),
        e.len() == 2 * bytes.len(),
        forall|i: int| 0 <= i < e.len() ==> #[trigger] e[i] == hex_spec(bytes)[i] as u8,
    ensures
        hex_pairs(e, n) == Some(bytes.take(n as int)),
    decreases n,
{
    if n > 0 {
        lemma_hex_pairs_prefix(bytes, e, (n - 1) as nat);
        let k = n - 1;
        let x = bytes[k];
        assert(e[2 * n - 2] == hex_spec(bytes)[2 * k] as u8);
        assert(e[2 * n - 1] == hex_spec(bytes)[2 * k + 1] as u8);
        assert((2 * k) / 2 == k && (2 * k) % 2 == 0);
        assert((2 * k + 1) / 2 == k && (2 * k + 1) % 2 == 1);
        assert(hex_value(e[2 * n - 2]) == Some((x / 16) as u8));
        assert(hex_value(e[2 * n - 1]) == Some((x % 16) as u8));
        assert(e[2 * n - 2] != 0x2b);
        assert(bytes.take(n as int) =~= bytes.take(k).push(x));
    }
}

impl MasterKey {
    /// A new master key from the operating system's CSPRNG: the only way a
    /// master key comes into existence.
    pub fn generate() -> (k: MasterKey)
        ensures
            k@.len() == MASTER_KEY_LEN,
    {
        let mut bytes = [0u8; MASTER_KEY_LEN];
        fill_random(&mut bytes);
        MasterKey(bytes)
    }

    /// A master key with exactly these bytes.
    pub fn from_bytes(bytes: [u8; MASTER_KEY_LEN]) -> (k: MasterKey)
        ensures
            k@ == bytes@,
    {
        MasterKey(bytes)
    }

    /// The raw key.
    pub fn as_bytes(&self) -> (b: &[u8; MASTER_KEY_LEN])
        ensures
            b@ == self@,
            self@.len() == MASTER_KEY_LEN,
    {
        &self.0
    }

    /// The key as 64 lowercase hexadecimal digits.
    pub fn to_hex(&self) -> (s: String)
        ensures
            s@ == hex_spec(self@),
    {
        to_hex(&self.0)
    }

    /// How the key renders for debugging: never its bytes.
    pub fn debug_repr(&self) -> (s: String)
        ensures
            s@ == "MasterKey(<redacted>)"@,
    {
        String::from_str("MasterKey(<redacted>)")
    }
}

/// Which unlock method a slot represents.
#[derive(Debug, Clone, Copy, PartialEq, Eq, Structural)]
pub enum SlotKind {
    Passphrase,
    Recovery,
    Sensitive,
}

/// The name of a slot kind in messages.
pub open spec fn label_spec(kind: SlotKind) -> &'static str {
    match kind {
        SlotKind::Passphrase => "passphrase",
        SlotKind::Recovery => "recovery",
        SlotKind::Sensitive => "sensitive",
    }
}

impl SlotKind {
    /// The name of this kind in messages.
    pub fn label(self) -> (s: &'static str)
        ensures
            s == label_spec(self),
    {
        match self {
            SlotKind::Passphrase => "passphrase",
            SlotKind::Recovery => "recovery",
            SlotKind::Sensitive => "sensitive",
        }
    }
}

/// How a slot's wrapping key is derived from its secret.
#[derive(Debug, Clone, Copy, PartialEq, Eq, Structural)]
pub enum Kdf {
    /// For human-chosen passphrases; the costs are stored per slot.
    Argon2id { m_cost: u32, t_cost: u32, p_cost: u32 },
    /// For the already high-entropy recovery key.
    HkdfSha256,
}

/// One independently unwrappable slot.
#[derive(Debug, Clone)]
pub struct KeySlot {
    pub kind: SlotKind,
    pub kdf: Kdf,
    pub salt: Vec<u8>,
    pub nonce: Vec<u8>,
    /// AES-256-GCM ciphertext of the master key, tag appended.
    pub wrapped_key: Vec<u8>,
}

/// The set of slots that can unlock the database.
#[derive(Debug, Clone)]
pub struct Keyring {
    pub version: u32,
    pub slots: Vec<KeySlot>,
}

/// The cost parameters of new passphrase slots.
pub open spec fn default_argon2() -> Kdf {
    Kdf::Argon2id { m_cost: ARGON2_M_COST, t_cost: ARGON2_T_COST, p_cost: ARGON2_P_COST }
}

/// The cost parameters of new passphrase slots, as a [`Kdf`].
fn argon2id_params() -> (k: Kdf)
    ensures
        k == default_argon2(),
{
    Kdf::Argon2id { m_cost: ARGON2_M_COST, t_cost: ARGON2_T_COST, p_cost: ARGON2_P_COST }
}

/// The HKDF info string that binds recovery wrapping keys to this use.
pub open spec fn wrap_info() -> Seq<u8> {
    encode_utf8("blurt:master-key-wrap:v1"@)
}

/// The wrapping key `secret` derives under `kdf` with `salt`, or `None` when
/// the derivation refuses its inputs.
pub open spec fn wrapping_key(kdf: Kdf, secret: Seq<u8>, salt: Seq<u8>) -> Option<Seq<u8>> {
    match kdf {
        Kdf::Argon2id { m_cost, t_cost, p_cost } => if argon2_accepts(
            m_cost,
            t_cost,
            p_cost,
            secret,
            salt,
        ) {
            Some(argon2id_key(m_cost, t_cost, p_cost, secret, salt))
        } else {
            None
        },
        Kdf::HkdfSha256 => Some(hkdf_sha256_key(salt, secret, wrap_info())),
    }
}

/// Whether `kdf` accepts `secret` with a salt of [`SALT_LEN`] bytes.
pub open spec fn kdf_accepts(kdf: Kdf, secret: Seq<u8>) -> bool {
    match kdf {
        Kdf::Argon2id { m_cost, t_cost, p_cost } => argon2_params_ok(m_cost, t_cost, p_cost)
            && secret.len() <= 0xFFFF_FFFF,
        Kdf::HkdfSha256 => true,
    }
}

/// Whether `kdf`'s costs are small enough for the Argon2 crate's parameter
/// check not to overflow.
pub open spec fn kdf_in_range(kdf: Kdf) -> bool {
    match kdf {
        Kdf::Argon2id { p_cost, .. } => p_cost <= 0x1FFF_FFFF,
        Kdf::HkdfSha256 => true,
    }
}

/// The first slot at or after `i` of kind `kind`.
pub open spec fn first_slot_from(slots: Seq<KeySlot>, kind: SlotKind, i: nat) -> Option<nat>
    decreases slots.len() - i,
{
    if i >= slots.len() {
        None
    } else if slots[i as int].kind == kind {
        Some(i)
    } else {
        first_slot_from(slots, kind, i + 1)
    }
}

/// The first slot of kind `kind`.
pub open spec fn first_slot(slots: Seq<KeySlot>, kind: SlotKind) -> Option<nat> {
    first_slot_from(slots, kind, 0)
}

/// Whether some slot has kind `kind`.
pub open spec fn has_kind(slots: Seq<KeySlot>, kind: SlotKind) -> bool {
    exists|i: int| 0 <= i < slots.len() && (#[trigger] slots[i]).kind == kind
}

/// Whether no two slots share a kind.
pub open spec fn kinds_distinct(slots: Seq<KeySlot>) -> bool {
    forall|i: int, j: int|
        0 <= i < j < slots.len() ==> (#[trigger] slots[i]).kind != (#[trigger] slots[j]).kind
}

/// Whether `slot` opens, with `secret`, to `master`.
pub open spec fn slot_opens(slot: KeySlot, secret: Seq<u8>, master: Seq<u8>) -> bool {
    &&& slot.nonce@.len() == NONCE_LEN
    &&& match wrapping_key(slot.kdf, secret, slot.salt@) {
        Some(wk) => aes_gcm_opened(wk, slot.nonce@, slot.wrapped_key@) == Some(master),
        None => false,
    }
}

/// Whether the slot that unwrapping with kind `kind` reads opens, with
/// `secret`, to `master`.
pub open spec fn unlocks(slots: Seq<KeySlot>, kind: SlotKind, secret: Seq<u8>, master: Seq<u8>) -> bool {
    match first_slot(slots, kind) {
        Some(i) => slot_opens(slots[i as int], secret, master),
        None => false,
    }
}

/// What unwrapping the slot of kind `kind` with `secret` yields.
pub open spec fn unwrap_outcome(
    slots: Seq<KeySlot>,
    kind: SlotKind,
    secret: Seq<u8>,
    r: Result<MasterKey, SchemaError>,
) -> bool {
    match first_slot(slots, kind) {
        None => r == Err::<MasterKey, SchemaError>(SchemaError::NoSuchSlot(label_spec(kind))),
        Some(i) => {
            let slot = slots[i as int];
            match wrapping_key(slot.kdf, secret, slot.salt@) {
                None => r matches Err(SchemaError::Kdf(_)),
                Some(wk) => if slot.nonce@.len() != NONCE_LEN {
                    r == Err::<MasterKey, SchemaError>(SchemaError::WrongSecret)
                } else {
                    match aes_gcm_opened(wk, slot.nonce@, slot.wrapped_key@) {
                        Some(p) => if p.len() == MASTER_KEY_LEN {
                            r matches Ok(k) && k@ == p
                        } else {
                            r == Err::<MasterKey, SchemaError>(SchemaError::WrongSecret)
                        },
                        None => r == Err::<MasterKey, SchemaError>(SchemaError::WrongSecret),
                    }
                },
            }
        },
    }
}

/// Whether unwrapping the slot of kind `kind` stays within what the key
/// derivation can be asked without overflowing.
pub open spec fn unwrap_in_range(slots: Seq<KeySlot>, kind: SlotKind) -> bool {
    first_slot(slots, kind) matches Some(i) ==> kdf_in_range(slots[i as int].kdf)
}

/// `slots` without the ones of kind `kind`, order kept.
pub open spec fn without_kind(slots: Seq<KeySlot>, kind: SlotKind) -> Seq<KeySlot>
    decreases slots.len(),
{
    if slots.len() == 0 {
        slots
    } else if slots.last().kind == kind {
        without_kind(slots.drop_last(), kind)
    } else {
        without_kind(slots.drop_last(), kind).push(slots.last())
    }
}

proof fn lemma_first_slot_from(slots: Seq<KeySlot>, kind: SlotKind, i: nat)
    ensures
        match first_slot_from(slots, kind, i) {
            Some(j) => i <= j < slots.len() && slots[j as int].kind == kind && forall|k: int|
                i <= k < j ==> (#[trigger] slots[k]).kind != kind,
            None => forall|k: int| i <= k < slots.len() ==> (#[trigger] slots[k]).kind != kind,
        },
    decreases slots.len() - i,
{
    if i < slots.len() && slots[i as int].kind != kind {
        lemma_first_slot_from(slots, kind, i + 1);
    }
}

/// The first slot of a kind is the lowest-indexed slot of that kind.
pub proof fn lemma_first_slot(slots: Seq<KeySlot>, kind: SlotKind)
    ensures
        match first_slot(slots, kind) {
            Some(j) => j < slots.len() && slots[j as int].kind == kind && forall|k: int|
                0 <= k < j ==> (#[trigger] slots[k]).kind != kind,
            None => !has_kind(slots, kind),
        },
{
    lemma_first_slot_from(slots, kind, 0);
}

/// Derives the 256-bit wrapping key for `secret` under `kdf` with `salt`.
fn derive_wrapping_key(kdf: Kdf, secret: &[u8], salt: &[u8]) -> (r: Result<KeyBytes, SchemaError>)
    requires
        kdf_in_range(kdf),
    ensures
        match wrapping_key(kdf, secret@, salt@) {
            Some(wk) => r matches Ok(k) && k@ == wk,
            None => r matches Err(SchemaError::Kdf(_)),
        },
{
    match kdf {
        Kdf::Argon2id { m_cost, t_cost, p_cost } => {
            match argon2id_hash(m_cost, t_cost, p_cost, secret, salt) {
                Ok(k) => Ok(k),
                Err(e) => Err(SchemaError::Kdf(argon2_error_text(&e))),
            }
        },
        Kdf::HkdfSha256 => {
            let info = "blurt:master-key-wrap:v1".as_bytes();
            match hkdf_sha256(salt, secret, info) {
                Ok(k) => Ok(k),
                Err(e) => Err(SchemaError::Kdf(hkdf_error_text(&e))),
            }
        },
    }
}

/// A fresh slot of kind `kind` holding `master` wrapped under `secret`, with
/// a new random salt and nonce.
fn build_slot(kind: SlotKind, kdf: Kdf, secret: &[u8], master: &MasterKey) -> (r: Result<KeySlot, SchemaError>)
    requires
        kdf_in_range(kdf),
    ensures
        r is Ok <==> kdf_accepts(kdf, secret@),
        match r {
            Ok(s) => s.kind == kind && s.kdf == kdf && s.salt@.len() == SALT_LEN && slot_opens(
                s,
                secret@,
                master@,
            ),
            Err(e) => e matches SchemaError::Kdf(_),
        },
{
    let mut salt = [0u8; SALT_LEN];
    fill_random(&mut salt);
    let mut nonce = [0u8; NONCE_LEN];
    fill_random(&mut nonce);
    let wrapping_key = match derive_wrapping_key(kdf, secret, &salt) {
        Ok(k) => k,
        Err(e) => {
            return Err(e);
        },
    };
    let m = master.as_bytes();
    match aes_gcm_seal(&wrapping_key, &nonce, m) {
        Ok(wrapped_key) => Ok(
            KeySlot {
                kind,
                kdf,
                salt: vstd::slice::slice_to_vec(&salt),
                nonce: vstd::slice::slice_to_vec(&nonce),
                wrapped_key,
            },
        ),
        Err(e) => {
            let mut msg = String::from_str("key wrapping failed: ");
            msg.append(aead_error_text(&e).as_str());
            Err(SchemaError::Kdf(msg))
        },
    }
}

/// The index of the first slot of kind `kind`.
fn find_slot(slots: &Vec<KeySlot>, kind: SlotKind) -> (r: Option<usize>)
    ensures
        match r {
            Some(i) => first_slot(slots@, kind) == Some(i as nat) && i < slots@.len(),
            None => first_slot(slots@, kind) is None,
        },
{
    let mut i: usize = 0;
    while i < slots.len()
        invariant
            i <= slots@.len(),
            first_slot_from(slots@, kind, i as nat) == first_slot(slots@, kind),
        decreases slots@.len() - i,
    {
        if slots[i].kind == kind {
            return Some(i);
        }
        i += 1;
    }
    None
}

impl Default for Keyring {
    fn default() -> (k: Self)
        ensures
            k.version == KEYRING_VERSION,
            k.slots@.len() == 0,
    {
        Keyring { version: KEYRING_VERSION, slots: Vec::new() }
    }
}

impl Keyring {
    /// An empty keyring of the current version.
    pub fn new() -> (k: Keyring)
        ensures
            k.version == KEYRING_VERSION,
            k.slots@.len() == 0,
    {
        Keyring { version: KEYRING_VERSION, slots: Vec::new() }
    }

    /// Whether a slot of this kind exists.
    pub fn has_slot(&self, kind: SlotKind) -> (b: bool)
        ensures
            b == has_kind(self.slots@, kind),
    {
        proof {
            lemma_first_slot(self.slots@, kind);
        }
        find_slot(&self.slots, kind).is_some()
    }

    /// Adds a passphrase-derived slot (passphrase or sensitive) wrapping the
    /// existing master key. Refuses a kind that already has a slot.
    pub fn add_passphrase_slot(&mut self, kind: SlotKind, master: &MasterKey, passphrase: &str) -> (r: Result<(), SchemaError>)
        ensures
            has_kind(old(self).slots@, kind) ==> r == Err::<(), SchemaError>(
                SchemaError::SlotExists(label_spec(kind)),
            ) && *final(self) == *old(self),
            !has_kind(old(self).slots@, kind) && passphrase.spec_bytes().len() > 0xFFFF_FFFF ==> (r
                matches Err(SchemaError::Kdf(_))) && *final(self) == *old(self),
            !has_kind(old(self).slots@, kind) && passphrase.spec_bytes().len() <= 0xFFFF_FFFF ==> {
                &&& r is Ok
                &&& final(self).version == old(self).version
                &&& final(self).slots@.len() == old(self).slots@.len() + 1
                &&& final(self).slots@.drop_last() == old(self).slots@
                &&& final(self).slots@.last().kind == kind
                &&& final(self).slots@.last().kdf == default_argon2()
                &&& final(self).slots@.last().salt@.len() == SALT_LEN
                &&& slot_opens(final(self).slots@.last(), passphrase.spec_bytes(), master@)
            },
    {
        if self.has_slot(kind) {
            return Err(SchemaError::SlotExists(kind.label()));
        }
        let kdf = argon2id_params();
        let slot = match build_slot(kind, kdf, passphrase.as_bytes(), master) {
            Ok(slot) => slot,
            Err(e) => {
                return Err(e);
            },
        };
        self.slots.push(slot);
        assert(self.slots@.drop_last() =~= old(self).slots@);
        Ok(())
    }

    /// Adds the recovery slot, wrapping the same master key under the
    /// recovery key. Refuses a second recovery slot.
    pub fn add_recovery_slot(&mut self, master: &MasterKey, recovery: &RecoveryKey) -> (r: Result<(), SchemaError>)
        ensures
            has_kind(old(self).slots@, SlotKind::Recovery) ==> r == Err::<(), SchemaError>(
                SchemaError::SlotExists("recovery"),
            ) && *final(self) == *old(self),
            !has_kind(old(self).slots@, SlotKind::Recovery) ==> {
                &&& r is Ok
                &&& final(self).version == old(self).version
                &&& final(self).slots@.len() == old(self).slots@.len() + 1
                &&& final(self).slots@.drop_last() == old(self).slots@
                &&& final(self).slots@.last().kind == SlotKind::Recovery
                &&& final(self).slots@.last().kdf == Kdf::HkdfSha256
                &&& final(self).slots@.last().salt@.len() == SALT_LEN
                &&& slot_opens(final(self).slots@.last(), recovery@, master@)
            },
    {
        if self.has_slot(SlotKind::Recovery) {
            return Err(SchemaError::SlotExists(SlotKind::Recovery.label()));
        }
        let slot = match build_slot(SlotKind::Recovery, Kdf::HkdfSha256, recovery.as_bytes(), master) {
            Ok(slot) => slot,
            Err(e) => {
                return Err(e);
            },
        };
        self.slots.push(slot);
        assert(self.slots@.drop_last() =~= old(self).slots@);
        Ok(())
    }

    /// Unwraps the master key with the first slot of `kind`.
    fn unwrap_slot(&self, kind: SlotKind, secret: &[u8]) -> (r: Result<MasterKey, SchemaError>)
        requires
            unwrap_in_range(self.slots@, kind),
        ensures
            unwrap_outcome(self.slots@, kind, secret@, r),
    {
        proof {
            lemma_first_slot(self.slots@, kind);
        }
        let i = match find_slot(&self.slots, kind) {
            Some(i) => i,
            None => {
                return Err(SchemaError::NoSuchSlot(kind.label()));
            },
        };
        let slot = &self.slots[i];
        assert(first_slot(self.slots@, kind) == Some(i as nat));
        let wrapping_key = match derive_wrapping_key(slot.kdf, secret, slot.salt.as_slice()) {
            Ok(k) => k,
            Err(e) => {
                return Err(e);
            },
        };
        if slot.nonce.len() != NONCE_LEN {
            return Err(SchemaError::WrongSecret);
        }
        let mut nonce = [0u8; NONCE_LEN];
        let mut k: usize = 0;
        while k < NONCE_LEN
            invariant
                k <= NONCE_LEN,
                slot.nonce@.len() == NONCE_LEN,
                nonce@.len() == NONCE_LEN,
                forall|j: int| 0 <= j < k ==> nonce@[j] == slot.nonce@[j],
            decreases NONCE_LEN - k,
        {
            nonce[k] = slot.nonce[k];
            k += 1;
        }
        assert(nonce@ =~= slot.nonce@);
        let plaintext = match aes_gcm_open(&wrapping_key, &nonce, slot.wrapped_key.as_slice()) {
            Ok(p) => p,
            Err(_) => {
                return Err(SchemaError::WrongSecret);
            },
        };
        if plaintext.len() != MASTER_KEY_LEN {
            return Err(SchemaError::WrongSecret);
        }
        let mut bytes = [0u8; MASTER_KEY_LEN];
        let mut j: usize = 0;
        while j < MASTER_KEY_LEN
            invariant
                j <= MASTER_KEY_LEN,
                plaintext@.len() == MASTER_KEY_LEN,
                bytes@.len() == MASTER_KEY_LEN,
                forall|t: int| 0 <= t < j ==> bytes@[t] == plaintext@[t],
            decreases MASTER_KEY_LEN - j,
        {
            bytes[j] = plaintext[j];
            j += 1;
        }
        assert(bytes@ =~= plaintext@);
        Ok(MasterKey::from_bytes(bytes))
    }

    /// Unwraps the master key with a passphrase slot.
    pub fn unwrap_with_passphrase(&self, kind: SlotKind, passphrase: &str) -> (r: Result<MasterKey, SchemaError>)
        requires
            unwrap_in_range(self.slots@, kind),
        ensures
            unwrap_outcome(self.slots@, kind, passphrase.spec_bytes(), r),
    {
        self.unwrap_slot(kind, passphrase.as_bytes())
    }

    /// Unwraps the master key with the recovery slot.
    pub fn unwrap_with_recovery_key(&self, recovery: &RecoveryKey) -> (r: Result<MasterKey, SchemaError>)
        requires
            unwrap_in_range(self.slots@, SlotKind::Recovery),
        ensures
            unwrap_outcome(self.slots@, SlotKind::Recovery, recovery@, r),
    {
        self.unwrap_slot(SlotKind::Recovery, recovery.as_bytes())
    }

    /// Replaces the first slot of `kind` with one wrapping `master` under a
    /// new passphrase, or adds one when there is none; the master key never
    /// changes.
    pub fn replace_passphrase_slot(&mut self, kind: SlotKind, master: &MasterKey, new_passphrase: &str) -> (r: Result<(), SchemaError>)
        ensures
            new_passphrase.spec_bytes().len() > 0xFFFF_FFFF ==> (r matches Err(SchemaError::Kdf(_)))
                && *final(self) == *old(self),
            new_passphrase.spec_bytes().len() <= 0xFFFF_FFFF ==> {
                &&& r is Ok
                &&& final(self).version == old(self).version
                &&& match first_slot(old(self).slots@, kind) {
                    Some(i) => {
                        &&& final(self).slots@.len() == old(self).slots@.len()
                        &&& forall|j: int|
                            0 <= j < old(self).slots@.len() && j != i ==> final(self).slots@[j]
                                == old(self).slots@[j]
                        &&& final(self).slots@[i as int].kind == kind
                        &&& final(self).slots@[i as int].kdf == default_argon2()
                        &&& final(self).slots@[i as int].salt@.len() == SALT_LEN
                        &&& slot_opens(
                            final(self).slots@[i as int],
                            new_passphrase.spec_bytes(),
                            master@,
                        )
                    },
                    None => {
                        &&& final(self).slots@.drop_last() == old(self).slots@
                        &&& final(self).slots@.len() == old(self).slots@.len() + 1
                        &&& final(self).slots@.last().kind == kind
                        &&& final(self).slots@.last().kdf == default_argon2()
                        &&& final(self).slots@.last().salt@.len() == SALT_LEN
                        &&& slot_opens(
                            final(self).slots@.last(),
                            new_passphrase.spec_bytes(),
                            master@,
                        )
                    },
                }
            },
    {
        let kdf = argon2id_params();
        let slot = match build_slot(kind, kdf, new_passphrase.as_bytes(), master) {
            Ok(slot) => slot,
            Err(e) => {
                return Err(e);
            },
        };
        proof {
            lemma_first_slot(self.slots@, kind);
        }
        match find_slot(&self.slots, kind) {
            Some(i) => {
                self.slots.set(i, slot);
            },
            None => {
                self.slots.push(slot);
                assert(self.slots@.drop_last() =~= old(self).slots@);
            },
        }
        Ok(())
    }

    /// Removes every slot of `kind`. Refuses when there is none, and when
    /// the keyring holds a single slot, which would leave the database
    /// unopenable.
    pub fn remove_slot(&mut self, kind: SlotKind) -> (r: Result<(), SchemaError>)
        ensures
            !has_kind(old(self).slots@, kind) ==> r == Err::<(), SchemaError>(
                SchemaError::NoSuchSlot(label_spec(kind)),
            ) && *final(self) == *old(self),
            has_kind(old(self).slots@, kind) && old(self).slots@.len() == 1 ==> r == Err::<
                (),
                SchemaError,
            >(
                SchemaError::NoSuchSlot(
                    "another unlock method — removing the last slot would orphan the database",
                ),
            ) && *final(self) == *old(self),
            has_kind(old(self).slots@, kind) && old(self).slots@.len() != 1 ==> r is Ok
                && final(self).version == old(self).version && final(self).slots@ == without_kind(
                old(self).slots@,
                kind,
            ),
    {
        if !self.has_slot(kind) {
            return Err(SchemaError::NoSuchSlot(kind.label()));
        }
        if self.slots.len() == 1 {
            return Err(
                SchemaError::NoSuchSlot(
                    "another unlock method — removing the last slot would orphan the database",
                ),
            );
        }
        let mut rest: Vec<KeySlot> = Vec::new();
        std::mem::swap(&mut rest, &mut self.slots);
        let ghost orig = rest@;
        let mut kept: Vec<KeySlot> = Vec::new();
        let ghost mut i: int = 0;
        while rest.len() > 0
            invariant
                0 <= i <= orig.len(),
                rest@ == orig.skip(i),
                kept@ == without_kind(orig.take(i), kind),
            decreases rest@.len(),
        {
            let s = rest.remove(0);
            proof {
                assert(orig.take(i + 1).drop_last() =~= orig.take(i));
                assert(s == orig[i]);
                assert(rest@ =~= orig.skip(i + 1));
            }
            if s.kind != kind {
                kept.push(s);
            }
            proof {
                i = i + 1;
            }
        }
        assert(orig.take(i) =~= orig);
        self.slots = kept;
        Ok(())
    }

    /// Whether unwrapping the slot of `kind` stays within what the key
    /// derivation can be asked: a passphrase slot read from storage may carry
    /// costs the Argon2 crate's parameter check overflows on.
    pub fn unwrap_within_range(&self, kind: SlotKind) -> (b: bool)
        ensures
            b == unwrap_in_range(self.slots@, kind),
    {
        match find_slot(&self.slots, kind) {
            Some(i) => match self.slots[i].kdf {
                Kdf::Argon2id { p_cost, .. } => p_cost <= 0x1FFF_FFFF,
                Kdf::HkdfSha256 => true,
            },
            None => true,
        }
    }

    /// Accepts a keyring read from storage only in the current format version.
    pub fn check_version(self) -> (r: Result<Keyring, SchemaError>)
        ensures
            self.version == KEYRING_VERSION ==> r == Ok::<Keyring, SchemaError>(self),
            self.version != KEYRING_VERSION ==> r == Err::<Keyring, SchemaError>(
                SchemaError::UnsupportedKeyringVersion(self.version),
            ),
    {
        if self.version != KEYRING_VERSION {
            return Err(SchemaError::UnsupportedKeyringVersion(self.version));
        }
        Ok(self)
    }
}

/// A slot that opens with `secret` to a 32-byte `master`, read by an unwrap,
/// yields `master`.
pub proof fn lemma_unlocking_slot_unwraps(
    slots: Seq<KeySlot>,
    kind: SlotKind,
    secret: Seq<u8>,
    master: Seq<u8>,
    r: Result<MasterKey, SchemaError>,
)
    requires
        unlocks(slots, kind, secret, master),
        master.len() == MASTER_KEY_LEN,
        unwrap_outcome(slots, kind, secret, r),
    ensures
        r matches Ok(k) && k@ == master,
{
}


proof fn lemma_first_from_is(s: Seq<KeySlot>, k: SlotKind, j: nat, i: nat)
    requires
        i <= j < s.len(),
        s[j as int].kind == k,
        forall|t: int| 0 <= t < j ==> (#[trigger] s[t]).kind != k,
    ensures
        first_slot_from(s, k, i) == Some(j),
    decreases j - i,
{
    if i < j {
        lemma_first_from_is(s, k, j, i + 1);
    }
}

proof fn lemma_first_slot_is(s: Seq<KeySlot>, k: SlotKind, j: nat)
    requires
        j < s.len(),
        s[j as int].kind == k,
        forall|t: int| 0 <= t < j ==> (#[trigger] s[t]).kind != k,
    ensures
        first_slot(s, k) == Some(j),
{
    lemma_first_from_is(s, k, j, 0);
}

proof fn lemma_first_slot_push(s: Seq<KeySlot>, x: KeySlot, k: SlotKind)
    ensures
        first_slot(s.push(x), k) == (match first_slot(s, k) {
            Some(j) => Some(j),
            None => if x.kind == k {
                Some(s.len())
            } else {
                None
            },
        }),
{
    lemma_first_slot(s, k);
    lemma_first_slot(s.push(x), k);
    let t = s.push(x);
    match first_slot(s, k) {
        Some(j) => {
            assert(t[j as int] == s[j as int]);
            assert forall|u: int| 0 <= u < j implies (#[trigger] t[u]).kind != k by {
                assert(t[u] == s[u]);
            }
            lemma_first_slot_is(t, k, j);
        },
        None => {
            if x.kind == k {
                assert forall|u: int| 0 <= u < s.len() implies (#[trigger] t[u]).kind != k by {
                    assert(t[u] == s[u]);
                    assert(!has_kind(s, k));
                    if s[u].kind == k {
                        assert(has_kind(s, k));
                    }
                }
                lemma_first_slot_is(t, k, s.len());
            } else {
                if first_slot(t, k) is Some {
                    let j = first_slot(t, k)->0;
                    if j < s.len() {
                        assert(t[j as int] == s[j as int]);
                        assert(has_kind(s, k));
                    }
                }
            }
        },
    }
}

/// Adding a slot of a kind the keyring does not have yet, which opens with
/// `secret` to `master`, makes that kind unwrap with `secret` to `master`.
pub proof fn lemma_added_slot_unlocks(slots: Seq<KeySlot>, slot: KeySlot, secret: Seq<u8>, master: Seq<u8>)
    requires
        !has_kind(slots, slot.kind),
        slot_opens(slot, secret, master),
    ensures
        unlocks(slots.push(slot), slot.kind, secret, master),
{
    lemma_first_slot(slots, slot.kind);
    lemma_first_slot_push(slots, slot, slot.kind);
    assert(slots.push(slot)[slots.len() as int] == slot);
}

/// Adding a slot never disturbs an existing way in: whatever unwrapped to
/// `master` before still does.
pub proof fn lemma_adding_keeps_unlocks(
    slots: Seq<KeySlot>,
    slot: KeySlot,
    kind: SlotKind,
    secret: Seq<u8>,
    master: Seq<u8>,
)
    requires
        unlocks(slots, kind, secret, master),
    ensures
        unlocks(slots.push(slot), kind, secret, master),
{
    lemma_first_slot(slots, kind);
    lemma_first_slot_push(slots, slot, kind);
    let j = first_slot(slots, kind)->0;
    assert(slots.push(slot)[j as int] == slots[j as int]);
}

/// Replacing the slot a kind unwraps with (the first of that kind) leaves
/// every other kind unwrapping as before.
pub proof fn lemma_replacing_keeps_other_unlocks(
    slots: Seq<KeySlot>,
    i: nat,
    slot: KeySlot,
    kind: SlotKind,
    secret: Seq<u8>,
    master: Seq<u8>,
)
    requires
        first_slot(slots, slot.kind) == Some(i),
        kind != slot.kind,
        unlocks(slots, kind, secret, master),
    ensures
        unlocks(slots.update(i as int, slot), kind, secret, master),
{
    lemma_first_slot(slots, kind);
    lemma_first_slot(slots, slot.kind);
    let j = first_slot(slots, kind)->0;
    let t = slots.update(i as int, slot);
    assert(j != i);
    assert(t[j as int] == slots[j as int]);
    assert forall|u: int| 0 <= u < j implies (#[trigger] t[u]).kind != kind by {
        if u != i {
            assert(t[u] == slots[u]);
        }
    }
    lemma_first_slot_is(t, kind, j);
}

/// The replacing slot is the one its kind now unwraps with.
pub proof fn lemma_replaced_slot_unlocks(
    slots: Seq<KeySlot>,
    i: nat,
    slot: KeySlot,
    secret: Seq<u8>,
    master: Seq<u8>,
)
    requires
        first_slot(slots, slot.kind) == Some(i),
        slot_opens(slot, secret, master),
    ensures
        unlocks(slots.update(i as int, slot), slot.kind, secret, master),
{
    lemma_first_slot(slots, slot.kind);
    let t = slots.update(i as int, slot);
    assert forall|u: int| 0 <= u < i implies (#[trigger] t[u]).kind != slot.kind by {
        assert(t[u] == slots[u]);
    }
    lemma_first_slot_is(t, slot.kind, i);
}

proof fn lemma_without_kind_first(slots: Seq<KeySlot>, kind: SlotKind, k2: SlotKind)
    requires
        k2 != kind,
    ensures
        match first_slot(slots, k2) {
            Some(j) => first_slot(without_kind(slots, kind), k2) matches Some(j2) && without_kind(
                slots,
                kind,
            )[j2 as int] == slots[j as int],
            None => first_slot(without_kind(slots, kind), k2) is None,
        },
    decreases slots.len(),
{
    if slots.len() == 0 {
        lemma_first_slot(slots, k2);
    } else {
        let prev = slots.drop_last();
        let x = slots.last();
        lemma_without_kind_first(prev, kind, k2);
        lemma_first_slot(prev, k2);
        assert(slots =~= prev.push(x));
        lemma_first_slot_push(prev, x, k2);
        let w = without_kind(prev, kind);
        if x.kind == kind {
            assert(without_kind(slots, kind) == w);
            match first_slot(prev, k2) {
                Some(j) => {
                    assert(slots[j as int] == prev[j as int]);
                },
                None => {},
            }
        } else {
            assert(without_kind(slots, kind) == w.push(x));
            lemma_first_slot_push(w, x, k2);
            lemma_first_slot(w, k2);
            match first_slot(prev, k2) {
                Some(j) => {
                    assert(slots[j as int] == prev[j as int]);
                    let j2 = first_slot(w, k2)->0;
                    assert(w.push(x)[j2 as int] == w[j2 as int]);
                },
                None => {
                    assert(w.push(x)[w.len() as int] == x);
                },
            }
        }
    }
}

/// Removing the slots of one kind leaves every other kind unwrapping as
/// before.
pub proof fn lemma_removing_keeps_other_unlocks(
    slots: Seq<KeySlot>,
    kind: SlotKind,
    k2: SlotKind,
    secret: Seq<u8>,
    master: Seq<u8>,
)
    requires
        k2 != kind,
        unlocks(slots, k2, secret, master),
    ensures
        unlocks(without_kind(slots, kind), k2, secret, master),
{
    lemma_without_kind_first(slots, kind, k2);
}

proof fn lemma_without_kind_len(slots: Seq<KeySlot>, kind: SlotKind)
    requires
        kinds_distinct(slots),
    ensures
        without_kind(slots, kind).len() == slots.len() - (if has_kind(slots, kind) {
            1int
        } else {
            0int
        }),
    decreases slots.len(),
{
    if slots.len() > 0 {
        let prev = slots.drop_last();
        assert(kinds_distinct(prev)) by {
            assert forall|i: int, j: int| 0 <= i < j < prev.len() implies (#[trigger] prev[i]).kind
                != (#[trigger] prev[j]).kind by {
                assert(prev[i] == slots[i] && prev[j] == slots[j]);
            }
        }
        lemma_without_kind_len(prev, kind);
        if slots.last().kind == kind {
            assert(!has_kind(prev, kind)) by {
                if has_kind(prev, kind) {
                    let i = choose|i: int| 0 <= i < prev.len() && (#[trigger] prev[i]).kind == kind;
                    assert(slots[i] == prev[i]);
                    assert(slots[slots.len() - 1] == slots.last());
                }
            }
            assert(has_kind(slots, kind)) by {
                assert(slots[slots.len() - 1] == slots.last());
            }
        } else {
            assert(has_kind(slots, kind) == has_kind(prev, kind)) by {
                if has_kind(slots, kind) {
                    let i = choose|i: int| 0 <= i < slots.len() && (#[trigger] slots[i]).kind == kind;
                    assert(i < prev.len());
                    assert(prev[i] == slots[i]);
                }
                if has_kind(prev, kind) {
                    let i = choose|i: int| 0 <= i < prev.len() && (#[trigger] prev[i]).kind == kind;
                    assert(slots[i] == prev[i]);
                }
            }
        }
    }
}

/// On a keyring whose kinds are distinct (as adding slots keeps it), a
/// successful removal takes out exactly one slot, so at least one remains.
pub proof fn lemma_removal_leaves_a_slot(slots: Seq<KeySlot>, kind: SlotKind)
    requires
        kinds_distinct(slots),
        has_kind(slots, kind),
        slots.len() != 1,
    ensures
        without_kind(slots, kind).len() == slots.len() - 1,
        without_kind(slots, kind).len() >= 1,
{
    lemma_without_kind_len(slots, kind);
}

/// Adding a slot of a kind the keyring lacks keeps its kinds distinct.
pub proof fn lemma_adding_keeps_kinds_distinct(slots: Seq<KeySlot>, slot: KeySlot)
    requires
        kinds_distinct(slots),
        !has_kind(slots, slot.kind),
    ensures
        kinds_distinct(slots.push(slot)),
{
    let t = slots.push(slot);
    assert forall|i: int, j: int| 0 <= i < j < t.len() implies (#[trigger] t[i]).kind != (
    #[trigger] t[j]).kind by {
        assert(t[i] == slots[i]);
        if j < slots.len() {
            assert(t[j] == slots[j]);
        } else {
            assert(t[j] == slot);
            if slots[i].kind == slot.kind {
                assert(has_kind(slots, slot.kind));
            }
        }
    }
}

} // verus!
