//! The token lifecycle: minting, signing, validation against the liveness
//! registry, lazy rotation, and revocation.

use vstd::prelude::*;

use crate::codec::{
    claims_wf, dec_hex, decode_claims, encode_claims, hex_chars, hex_decode_range, hex_encode,
    lemma_dec_enc_claims, lemma_dec_hex_chars, lemma_hex_chars_len, lemma_hex_chars_no_dot,
    spec_dec_claims, spec_enc_claims,
};
use crate::errors::ApiError;
use crate::models::{Claims, ClaimsView, Group, User};
use crate::registry::TokenRegistry;
use crate::roles::Role;
use crate::strutil::{find_char, find_char_at, lemma_find_char_from, str_eq};
use crate::trusted::{
    chars_to_string, ed_signing_ok, eddsa_sig, eddsa_valid, fresh_jti, sign_bytes, verify_bytes,
};

verus! {

/// How long a fresh token lives, in seconds: seven days.
pub const TOKEN_LIFETIME: i64 = 604800;

/// The deployment's signing material: the private PEM that signs, and the
/// raw 32-byte Ed25519 public key that verifies. The verifying backend
/// reads exactly 32 bytes, so the key is held in that form and `wf` pins
/// its length.
#[derive(Clone, Debug)]
pub struct KeySet {
    pub encoding: Vec<u8>,
    pub decoding: Vec<u8>,
}

impl KeySet {
    /// Well-formed: the public key has the one length Ed25519 gives it.
    pub open spec fn wf(self) -> bool {
        self.decoding@.len() == 32
    }
}

/// A claims bundle together with its signed wire form.
#[derive(Debug)]
pub struct JWTInternal {
    pub claims: Claims,
    pub token: String,
}

/// The constant first segment of every token: it names the signature
/// scheme, as the compact three-part form expects a header.
pub open spec fn token_header() -> Seq<char> {
    "eddsa"@
}

/// The header holds no separator and has five characters.
pub proof fn lemma_token_header_facts()
    ensures
        token_header().len() == 5,
        forall|i: int| 0 <= i < token_header().len() ==> token_header()[i] != '.',
{
    reveal_strlit("eddsa");
    assert("eddsa"@.len() == 5);
    assert forall|i: int| 0 <= i < token_header().len() implies token_header()[i] != '.' by {
        assert("eddsa"@[0] == 'e');
        assert("eddsa"@[1] == 'd');
        assert("eddsa"@[2] == 'd');
        assert("eddsa"@[3] == 's');
        assert("eddsa"@[4] == 'a');
    }
}

/// The wire form of a claims bundle under a private key, in three
/// dot-separated parts: the constant header, the hex payload, and the
/// signature over the payload bytes.
pub open spec fn spec_token(c: ClaimsView, priv_pem: Seq<u8>) -> Seq<char> {
    token_header() + seq!['.'] + hex_chars(spec_enc_claims(c)) + seq!['.'] + eddsa_sig(
        priv_pem,
        spec_enc_claims(c),
    )
}

/// What validation answers: the claims a token carries, provided the
/// first segment is the header, the second reads back as payload bytes,
/// the third verifies as their signature under the public key, the expiry
/// lies past `now`, and the token id is still registered. Any failure is
/// one answer.
pub open spec fn spec_validate(
    reg: TokenRegistry,
    pub_key: Seq<u8>,
    t: Seq<char>,
    now: int,
) -> Option<ClaimsView> {
    match find_char(t, '.', 0) {
        None => None,
        Some(d1) => if t.take(d1) != token_header() {
            None
        } else {
            match find_char(t, '.', d1 + 1) {
                None => None,
                Some(d2) => match dec_hex(t.subrange(d1 + 1, d2)) {
                    None => None,
                    Some(bs) => if !eddsa_valid(pub_key, bs, t.subrange(d2 + 1, t.len() as int)) {
                        None
                    } else {
                        match spec_dec_claims(bs) {
                            None => None,
                            Some(cv) => if cv.exp > now && reg.contains_jti(cv.jti) {
                                Some(cv)
                            } else {
                                None
                            },
                        }
                    },
                },
            }
        },
    }
}

/// Assembles the wire form from payload bytes and a signature.
fn make_token(payload: &Vec<u8>, sig: &str) -> (t: String)
    ensures
        t@ == token_header() + seq!['.'] + hex_chars(payload@) + seq!['.'] + sig@,
{
    let hx = hex_encode(payload);
    let mut t = String::from_str("eddsa");
    proof {
        reveal_strlit(".");
        assert("."@.len() == 1);
        assert("."@[0] == '.');
        assert("."@ =~= seq!['.']);
    }
    t.append(".");
    t.append(chars_to_string(&hx).as_str());
    t.append(".");
    t.append(sig);
    proof {
        assert(t@ =~= token_header() + seq!['.'] + hex_chars(payload@) + seq!['.'] + sig@);
    }
    t
}

impl JWTInternal {
    /// Signs a claims bundle; this succeeds exactly when the signing key
    /// is one the subsystem accepts, and a refusal is an internal fault.
    pub fn from(claims: &Claims, key: &KeySet) -> (r: Result<JWTInternal, ApiError>)
        ensures
            (r is Ok) == ed_signing_ok(key.encoding@),
            match r {
                Ok(j) => j.claims@ == claims@ && j.token@ == spec_token(claims@, key.encoding@)
                    && claims_wf(claims@),
                Err(e) => e == ApiError::Internal,
            },
    {
        let payload = encode_claims(claims);
        match sign_bytes(&key.encoding, &payload) {
            Some(sig) => {
                let token = make_token(&payload, sig.as_str());
                Ok(JWTInternal { claims: claims.clone(), token })
            },
            None => Err(ApiError::Internal),
        }
    }

    /// Mints and signs a fresh claims bundle for a user with its current
    /// role and groups: a new random token id, expiry seven days past
    /// `now`, and the fixed issuer tag. Nothing is registered yet. This
    /// succeeds exactly when the signing key is accepted and the expiry
    /// fits the clock's type.
    pub fn create(user: &User, role: Role, groups: Vec<Group>, key: &KeySet, now: i64) -> (r:
        Result<JWTInternal, ApiError>)
        ensures
            (r is Ok) == (ed_signing_ok(key.encoding@) && now + TOKEN_LIFETIME <= i64::MAX),
            match r {
                Ok(j) => {
                    &&& j.claims.user@ == user@
                    &&& j.claims.role == role
                    &&& j.claims@.groups == groups@.map_values(|g: Group| g@)
                    &&& j.claims.company@ == "I.K.E"@
                    &&& j.claims.exp == now + TOKEN_LIFETIME
                    &&& j.claims.jti@.len() == 36
                    &&& j.token@ == spec_token(j.claims@, key.encoding@)
                    &&& claims_wf(j.claims@)
                },
                Err(e) => e == ApiError::Internal,
            },
    {
        if now > i64::MAX - TOKEN_LIFETIME {
            return Err(ApiError::Internal);
        }
        let id = fresh_jti();
        let claims = Claims {
            company: String::from_str("I.K.E"),
            exp: now + TOKEN_LIFETIME,
            jti: id,
            user: user.clone(),
            role,
            groups,
        };
        Self::from(&claims, key)
    }

    /// Registers a freshly minted token as live and unflagged; its `jti`
    /// colliding with a live one is the store's uniqueness fault.
    pub fn register(reg: &mut TokenRegistry, token: &JWTInternal) -> (r: Result<(), ApiError>)
        requires
            old(reg).wf(),
        ensures
            final(reg).wf(),
            old(reg).contains_jti(token.claims.jti@) ==> r == Err::<(), ApiError>(
                ApiError::Internal,
            ) && *final(reg) == *old(reg),
            !old(reg).contains_jti(token.claims.jti@) ==> {
                &&& r == Ok::<(), ApiError>(())
                &&& final(reg).contains_jti(token.claims.jti@)
                &&& final(reg).owner_of(token.claims.jti@) == token.claims.user.id as int
                &&& !final(reg).flagged(token.claims.jti@)
                &&& forall|x: Seq<char>| x != token.claims.jti@ ==>
                    final(reg).contains_jti(x) == old(reg).contains_jti(x)
                &&& forall|x: Seq<char>| x != token.claims.jti@ && old(reg).contains_jti(x) ==>
                    final(reg).owner_of(x) == old(reg).owner_of(x)
                    && final(reg).flagged(x) == old(reg).flagged(x)
            },
    {
        reg.register(token.claims.jti.as_str(), token.claims.user.id)
    }

    /// Whether the registry marks this claims bundle's token as needing
    /// rotation; a dead token reports `false`.
    pub fn needs_refresh(reg: &TokenRegistry, claims: &Claims) -> (r: Result<bool, ApiError>)
        requires
            reg.wf(),
        ensures
            r == Ok::<bool, ApiError>(
                reg.contains_jti(claims.jti@) && reg.flagged(claims.jti@),
            ),
    {
        Ok(reg.is_flagged(claims.jti.as_str()))
    }

    /// Revokes one token id; afterwards it is dead whatever time remains
    /// on the signed token.
    pub fn delete(reg: &mut TokenRegistry, jti: &str) -> (r: Result<(), ApiError>)
        requires
            old(reg).wf(),
        ensures
            final(reg).wf(),
            r == Ok::<(), ApiError>(()),
            !final(reg).contains_jti(jti@),
            forall|x: Seq<char>| x != jti@ ==>
                final(reg).contains_jti(x) == old(reg).contains_jti(x),
            forall|x: Seq<char>| x != jti@ && old(reg).contains_jti(x) ==>
                final(reg).owner_of(x) == old(reg).owner_of(x)
                && final(reg).flagged(x) == old(reg).flagged(x),
    {
        reg.delete(jti)
    }

    /// The full rotation cycle: mints and signs a replacement carrying
    /// the user's current role and groups under a token id that differs
    /// from the replaced one, registers it live and unflagged, then
    /// revokes the old id. A failure at any step — a refused key, an
    /// overflowing expiry, or the freshly drawn id colliding with a live
    /// one — leaves the registry untouched.
    pub fn refresh(
        reg: &mut TokenRegistry,
        user: &User,
        role: Role,
        groups: Vec<Group>,
        jti: &str,
        key: &KeySet,
        now: i64,
    ) -> (r: Result<JWTInternal, ApiError>)
        requires
            old(reg).wf(),
        ensures
            final(reg).wf(),
            !(ed_signing_ok(key.encoding@) && now + TOKEN_LIFETIME <= i64::MAX) ==> r is Err,
            r is Ok ==> ed_signing_ok(key.encoding@) && now + TOKEN_LIFETIME <= i64::MAX,
            match r {
                Ok(j) => {
                    &&& j.claims.user@ == user@
                    &&& j.claims.role == role
                    &&& j.claims@.groups == groups@.map_values(|g: Group| g@)
                    &&& j.claims.exp == now + TOKEN_LIFETIME
                    &&& j.claims.jti@.len() == 36
                    &&& j.claims.jti@ != jti@
                    &&& j.token@ == spec_token(j.claims@, key.encoding@)
                    &&& claims_wf(j.claims@)
                    &&& !final(reg).contains_jti(jti@)
                    &&& final(reg).contains_jti(j.claims.jti@)
                    &&& final(reg).owner_of(j.claims.jti@) == j.claims.user.id as int
                    &&& !final(reg).flagged(j.claims.jti@)
                    &&& forall|x: Seq<char>| x != jti@ && x != j.claims.jti@ ==>
                        final(reg).contains_jti(x) == old(reg).contains_jti(x)
                    &&& forall|x: Seq<char>| x != jti@ && x != j.claims.jti@
                        && old(reg).contains_jti(x) ==>
                        final(reg).owner_of(x) == old(reg).owner_of(x)
                        && final(reg).flagged(x) == old(reg).flagged(x)
                },
                Err(e) => e == ApiError::Internal && *final(reg) == *old(reg),
            },
    {
        let refreshed = Self::create(user, role, groups, key, now)?;
        if str_eq(refreshed.claims.jti.as_str(), jti) {
            return Err(ApiError::Internal);
        }
        match Self::register(reg, &refreshed) {
            Ok(()) => {},
            Err(e) => {
                return Err(e);
            },
        }
        Self::delete(reg, jti)?;
        Ok(refreshed)
    }

    /// Marks every live token of the user for rotation; called whenever
    /// the user's role or group memberships change.
    pub fn refresh_for_user(reg: &mut TokenRegistry, user: &User) -> (r: Result<(), ApiError>)
        requires
            old(reg).wf(),
        ensures
            final(reg).wf(),
            r == Ok::<(), ApiError>(()),
            forall|x: Seq<char>| final(reg).contains_jti(x) == old(reg).contains_jti(x),
            forall|x: Seq<char>| old(reg).contains_jti(x) ==>
                final(reg).owner_of(x) == old(reg).owner_of(x)
                && final(reg).flagged(x) == (old(reg).flagged(x)
                    || old(reg).owner_of(x) == user.id as int),
    {
        reg.set_refresh_for_user(user.id)
    }

    /// Revokes every live token of the user; any token previously issued
    /// to it fails validation permanently.
    pub fn invalidate_user(reg: &mut TokenRegistry, user: &User) -> (r: Result<(), ApiError>)
        requires
            old(reg).wf(),
        ensures
            final(reg).wf(),
            r == Ok::<(), ApiError>(()),
            forall|x: Seq<char>| final(reg).contains_jti(x)
                == (old(reg).contains_jti(x) && old(reg).owner_of(x) != user.id as int),
            forall|x: Seq<char>| final(reg).contains_jti(x) ==>
                final(reg).owner_of(x) == old(reg).owner_of(x)
                && final(reg).flagged(x) == old(reg).flagged(x),
    {
        reg.purge_user(user.id)
    }

    /// Whether a token id is live.
    pub fn is_valid_jti(reg: &TokenRegistry, jti: &str) -> (b: bool)
        requires
            reg.wf(),
        ensures
            b == reg.contains_jti(jti@),
    {
        reg.is_valid_jti(jti)
    }

    /// Validation: splits the token at its separators, checks the header
    /// and the signature, reads the claims back, and requires the expiry
    /// to lie past `now` and the token id to be live. Every failure
    /// collapses to the one undifferentiated credential error.
    pub fn validate_jwt(
        reg: &TokenRegistry,
        raw_token: &str,
        key: &KeySet,
        now: i64,
    ) -> (r: Result<Claims, ApiError>)
        requires
            reg.wf(),
            key.wf(),
        ensures
            match r {
                Ok(c) => spec_validate(*reg, key.decoding@, raw_token@, now as int) == Some(c@),
                Err(e) => spec_validate(*reg, key.decoding@, raw_token@, now as int) is None
                    && e == ApiError::Jwt,
            },
    {
        let n = raw_token.unicode_len();
        let d1 = match find_char_at(raw_token, '.', 0) {
            Some(d) => d,
            None => {
                return Err(ApiError::Jwt);
            },
        };
        let header = raw_token.substring_char(0, d1);
        proof {
            assert(raw_token@.take(d1 as int) =~= raw_token@.subrange(0, d1 as int));
        }
        if !str_eq(header, "eddsa") {
            return Err(ApiError::Jwt);
        }
        let d2 = match find_char_at(raw_token, '.', d1 + 1) {
            Some(d) => d,
            None => {
                return Err(ApiError::Jwt);
            },
        };
        let payload = match hex_decode_range(raw_token, d1 + 1, d2) {
            Some(p) => p,
            None => {
                return Err(ApiError::Jwt);
            },
        };
        let sig = raw_token.substring_char(d2 + 1, n);
        if !verify_bytes(&key.decoding, &payload, sig) {
            return Err(ApiError::Jwt);
        }
        let c = match decode_claims(&payload) {
            Some(c) => c,
            None => {
                return Err(ApiError::Jwt);
            },
        };
        if !(c.exp > now) {
            return Err(ApiError::Jwt);
        }
        if !reg.is_valid_jti(c.jti.as_str()) {
            return Err(ApiError::Jwt);
        }
        Ok(c)
    }
}

/// Round trip: a registered, unexpired claims bundle, signed and put on
/// the wire, validates back to the very same claims — provided the
/// deployment's public key accepts what its private key signs, which is
/// what makes the two keys a pair.
pub proof fn lemma_token_round_trip(
    reg: TokenRegistry,
    priv_pem: Seq<u8>,
    pub_key: Seq<u8>,
    c: ClaimsView,
    now: int,
)
    requires
        claims_wf(c),
        reg.contains_jti(c.jti),
        c.exp > now,
    ensures
        eddsa_valid(pub_key, spec_enc_claims(c), eddsa_sig(priv_pem, spec_enc_claims(c)))
            ==> spec_validate(reg, pub_key, spec_token(c, priv_pem), now) == Some(c),
{
    let hd = token_header();
    let enc = spec_enc_claims(c);
    let hx = hex_chars(enc);
    let sig = eddsa_sig(priv_pem, enc);
    let t = spec_token(c, priv_pem);
    lemma_token_header_facts();
    lemma_hex_chars_len(enc);
    lemma_hex_chars_no_dot(enc);
    let d1 = hd.len() as int;
    let d2 = d1 + 1 + hx.len() as int;
    assert(t.len() == d2 + 1 + sig.len());
    assert(t[d1] == '.');
    assert(forall|j: int| 0 <= j < d1 ==> t[j] == hd[j]);
    lemma_find_char_from(t, '.', 0, d1);
    assert(t.take(d1) =~= hd);
    assert(t[d2] == '.');
    assert(forall|j: int| d1 + 1 <= j < d2 ==> t[j] == hx[j - d1 - 1]);
    lemma_find_char_from(t, '.', d1 + 1, d2);
    assert(t.subrange(d1 + 1, d2) =~= hx);
    lemma_dec_hex_chars(enc);
    assert(dec_hex(t.subrange(d1 + 1, d2)) == Some(enc));
    assert(t.subrange(d2 + 1, t.len() as int) =~= sig);
    lemma_dec_enc_claims(c);
}

/// A token that validates always carries a live token id; hence after a
/// revocation, no token carrying the revoked id validates, whatever time
/// remains on it.
pub proof fn lemma_revoked_token_rejected(
    reg: TokenRegistry,
    pub_key: Seq<u8>,
    t: Seq<char>,
    now: int,
    jti: Seq<char>,
)
    requires
        !reg.contains_jti(jti),
    ensures
        match spec_validate(reg, pub_key, t, now) {
            Some(cv) => cv.jti != jti,
            None => true,
        },
{
}

} // verus!
