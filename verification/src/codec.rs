//! The pure claims codec: a claims bundle is laid out as bytes, carried
//! inside the signed token, and read back. Decoding an encoding returns
//! the original claims; the proof stands in `lemma_dec_enc_claims`.

use vstd::prelude::*;

use vstd::bytes::{
    lemma_auto_spec_u32_to_from_le_bytes, lemma_auto_spec_u64_to_from_le_bytes,
    spec_u32_from_le_bytes, spec_u32_to_le_bytes, spec_u64_from_le_bytes, spec_u64_to_le_bytes,
    u32_from_le_bytes, u32_to_le_bytes, u64_from_le_bytes, u64_to_le_bytes,
};
use vstd::slice::{slice_subrange, slice_to_vec};
use vstd::utf8::{decode_utf8, encode_utf8, valid_utf8};

use crate::models::{Claims, ClaimsView, Group, GroupView, User, UserView};
use crate::roles::Role;
use crate::trusted::string_from_bytes;

verus! {

pub broadcast group group_codec_utf8 {
    vstd::utf8::encode_utf8_valid_utf8,
    vstd::utf8::encode_utf8_decode_utf8,
}

/// An unsigned value in little-endian order, eight bytes.
pub open spec fn u64le(n: int) -> Seq<u8>
    recommends
        0 <= n < 0x1_0000_0000_0000_0000,
{
    spec_u64_to_le_bytes(n as u64)
}

/// An unsigned value in little-endian order, four bytes.
pub open spec fn u32le(n: int) -> Seq<u8>
    recommends
        0 <= n < 0x1_0000_0000,
{
    spec_u32_to_le_bytes(n as u32)
}

/// The unsigned value of eight little-endian bytes at `i`.
pub open spec fn rd_u64(s: Seq<u8>, i: int) -> int
    recommends
        0 <= i,
        i + 8 <= s.len(),
{
    spec_u64_from_le_bytes(s.subrange(i, i + 8)) as int
}

/// The unsigned value of four little-endian bytes at `i`.
pub open spec fn rd_u32(s: Seq<u8>, i: int) -> int
    recommends
        0 <= i,
        i + 4 <= s.len(),
{
    spec_u32_from_le_bytes(s.subrange(i, i + 4)) as int
}

/// A signed 64-bit value as sign byte plus magnitude: nine bytes.
pub open spec fn enc_i64(x: int) -> Seq<u8>
    recommends
        -0x8000_0000_0000_0000 <= x < 0x8000_0000_0000_0000,
{
    if x < 0 {
        seq![1u8] + u64le(-x)
    } else {
        seq![0u8] + u64le(x)
    }
}

/// Reads back what `enc_i64` wrote at `i`.
pub open spec fn dec_i64(s: Seq<u8>, i: int) -> Option<(int, int)> {
    if i < 0 || i + 9 > s.len() {
        None
    } else {
        let sign = s[i];
        let mag = rd_u64(s, i + 1);
        if sign == 0 {
            if mag < 0x8000_0000_0000_0000 {
                Some((mag, i + 9))
            } else {
                None
            }
        } else if sign == 1 {
            if 0 < mag <= 0x8000_0000_0000_0000 {
                Some((-mag, i + 9))
            } else {
                None
            }
        } else {
            None
        }
    }
}

/// A signed 32-bit value as sign byte plus magnitude: five bytes.
pub open spec fn enc_i32(x: int) -> Seq<u8>
    recommends
        -0x8000_0000 <= x < 0x8000_0000,
{
    if x < 0 {
        seq![1u8] + u32le(-x)
    } else {
        seq![0u8] + u32le(x)
    }
}

/// Reads back what `enc_i32` wrote at `i`.
pub open spec fn dec_i32(s: Seq<u8>, i: int) -> Option<(int, int)> {
    if i < 0 || i + 5 > s.len() {
        None
    } else {
        let sign = s[i];
        let mag = rd_u32(s, i + 1);
        if sign == 0 {
            if mag < 0x8000_0000 {
                Some((mag, i + 5))
            } else {
                None
            }
        } else if sign == 1 {
            if 0 < mag <= 0x8000_0000 {
                Some((-mag, i + 5))
            } else {
                None
            }
        } else {
            None
        }
    }
}

/// A string as its UTF-8 bytes behind an eight-byte length.
pub open spec fn str_bytes(s: Seq<char>) -> Seq<u8> {
    u64le(encode_utf8(s).len() as int) + encode_utf8(s)
}

/// A string's UTF-8 form fits the eight-byte length field. Every string
/// held in memory does.
pub open spec fn str_ok(s: Seq<char>) -> bool {
    encode_utf8(s).len() < 0x1_0000_0000_0000_0000
}

/// Reads back what `str_bytes` wrote at `i`.
pub open spec fn dec_str(s: Seq<u8>, i: int) -> Option<(Seq<char>, int)> {
    if i < 0 || i + 8 > s.len() {
        None
    } else {
        let n = rd_u64(s, i);
        if i + 8 + n > s.len() {
            None
        } else {
            let bs = s.subrange(i + 8, i + 8 + n);
            if valid_utf8(bs) {
                Some((decode_utf8(bs), i + 8 + n))
            } else {
                None
            }
        }
    }
}

/// The one-byte tag of a role.
pub open spec fn role_tag(r: Role) -> u8 {
    match r {
        Role::Root => 0,
        Role::Super => 1,
        Role::User => 2,
        Role::Visitor => 3,
    }
}

/// The role a tag byte names, if any.
pub open spec fn tag_role(t: u8) -> Option<Role> {
    if t == 0 {
        Some(Role::Root)
    } else if t == 1 {
        Some(Role::Super)
    } else if t == 2 {
        Some(Role::User)
    } else if t == 3 {
        Some(Role::Visitor)
    } else {
        None
    }
}

/// One group: its id, then its name.
pub open spec fn enc_group(g: GroupView) -> Seq<u8> {
    enc_i32(g.id) + str_bytes(g.name)
}

/// Reads back what `enc_group` wrote at `i`.
pub open spec fn dec_group(s: Seq<u8>, i: int) -> Option<(GroupView, int)> {
    match dec_i32(s, i) {
        None => None,
        Some((id, j)) => match dec_str(s, j) {
            None => None,
            Some((name, k)) => Some((GroupView { id, name }, k)),
        },
    }
}

/// The groups in order, front to back.
pub open spec fn enc_groups(gs: Seq<GroupView>) -> Seq<u8>
    decreases gs.len(),
{
    if gs.len() == 0 {
        Seq::empty()
    } else {
        enc_group(gs.first()) + enc_groups(gs.drop_first())
    }
}

/// Reads back `cnt` groups starting at `i`.
pub open spec fn dec_groups(s: Seq<u8>, i: int, cnt: int) -> Option<(Seq<GroupView>, int)>
    decreases cnt,
{
    if cnt <= 0 {
        if cnt == 0 {
            Some((Seq::empty(), i))
        } else {
            None
        }
    } else {
        match dec_group(s, i) {
            None => None,
            Some((g, j)) => match dec_groups(s, j, cnt - 1) {
                None => None,
                Some((gs, k)) => Some((seq![g] + gs, k)),
            },
        }
    }
}

/// Every bound the byte layout needs; the view of any claims value held
/// in memory satisfies it.
pub open spec fn claims_wf(c: ClaimsView) -> bool {
    &&& -0x8000_0000_0000_0000 <= c.exp < 0x8000_0000_0000_0000
    &&& -0x8000_0000 <= c.user.id < 0x8000_0000
    &&& str_ok(c.jti)
    &&& str_ok(c.company)
    &&& str_ok(c.user.login)
    &&& str_ok(c.user.hash)
    &&& c.groups.len() < 0x1_0000_0000_0000_0000
    &&& forall|k: int| 0 <= k < c.groups.len() ==> {
        &&& -0x8000_0000 <= (#[trigger] c.groups[k]).id < 0x8000_0000
        &&& str_ok(c.groups[k].name)
    }
}

/// The whole claims bundle as bytes: expiry, token id, issuer tag, the
/// subject user, the role tag, then the group list behind its count.
pub open spec fn spec_enc_claims(c: ClaimsView) -> Seq<u8> {
    enc_i64(c.exp) + str_bytes(c.jti) + str_bytes(c.company) + enc_i32(c.user.id) + str_bytes(
        c.user.login,
    ) + str_bytes(c.user.hash) + seq![role_tag(c.role)] + u64le(c.groups.len() as int)
        + enc_groups(c.groups)
}

/// Reads a whole claims bundle back; the bytes must be consumed exactly.
pub open spec fn spec_dec_claims(s: Seq<u8>) -> Option<ClaimsView> {
    match dec_i64(s, 0) {
        None => None,
        Some((exp, p0)) => match dec_str(s, p0) {
            None => None,
            Some((jti, p1)) => match dec_str(s, p1) {
                None => None,
                Some((company, p2)) => match dec_i32(s, p2) {
                    None => None,
                    Some((uid, p3)) => match dec_str(s, p3) {
                        None => None,
                        Some((login, p4)) => match dec_str(s, p4) {
                            None => None,
                            Some((hash, p5)) => if p5 + 1 > s.len() {
                                None
                            } else {
                                match tag_role(s[p5]) {
                                    None => None,
                                    Some(role) => if p5 + 9 > s.len() {
                                        None
                                    } else {
                                        let cnt = rd_u64(s, p5 + 1);
                                        match dec_groups(s, p5 + 9, cnt) {
                                            None => None,
                                            Some((groups, p6)) => if p6 == s.len() {
                                                Some(
                                                    ClaimsView {
                                                        company,
                                                        exp,
                                                        jti,
                                                        user: UserView { id: uid, login, hash },
                                                        role,
                                                        groups,
                                                    },
                                                )
                                            } else {
                                                None
                                            },
                                        }
                                    },
                                }
                            },
                        },
                    },
                },
            },
        },
    }
}

// ---------------------------------------------------------------------
// Round-trip lemmas: decoding inside any context reads back what the
// encoder wrote.
// ---------------------------------------------------------------------

/// Reading eight bytes written by `u64le` inside `s` gives the value back.
proof fn lemma_rd_u64(s: Seq<u8>, i: int, n: int)
    requires
        0 <= n < 0x1_0000_0000_0000_0000,
        0 <= i,
        i + 8 <= s.len(),
        s.subrange(i, i + 8) == u64le(n),
    ensures
        rd_u64(s, i) == n,
{
    lemma_auto_spec_u64_to_from_le_bytes();
}

/// Reading four bytes written by `u32le` inside `s` gives the value back.
proof fn lemma_rd_u32(s: Seq<u8>, i: int, n: int)
    requires
        0 <= n < 0x1_0000_0000,
        0 <= i,
        i + 4 <= s.len(),
        s.subrange(i, i + 4) == u32le(n),
    ensures
        rd_u32(s, i) == n,
{
    lemma_auto_spec_u32_to_from_le_bytes();
    assert(spec_u32_to_le_bytes(n as u32).len() == 4);
}

/// `u64le` always writes eight bytes.
proof fn lemma_u64le_len(n: int)
    ensures
        u64le(n).len() == 8,
{
    lemma_auto_spec_u64_to_from_le_bytes();
}

/// `u32le` always writes four bytes.
proof fn lemma_u32le_len(n: int)
    ensures
        u32le(n).len() == 4,
{
    lemma_auto_spec_u32_to_from_le_bytes();
}

/// Decoding an `enc_i64` embedded in `s` yields the value and lands just
/// after it.
proof fn lemma_dec_i64(s: Seq<u8>, i: int, x: int)
    requires
        -0x8000_0000_0000_0000 <= x < 0x8000_0000_0000_0000,
        0 <= i,
        i + 9 <= s.len(),
        s.subrange(i, i + 9) == enc_i64(x),
    ensures
        dec_i64(s, i) == Some((x, i + 9)),
{
    let e = enc_i64(x);
    let mag: int = if x < 0 {
        -x
    } else {
        x
    };
    lemma_u64le_len(mag);
    assert(e.len() == 9);
    assert(s[i] == e[0]);
    assert(s.subrange(i + 1, i + 9) =~= e.subrange(1, 9));
    assert(e.subrange(1, 9) =~= u64le(mag));
    lemma_rd_u64(s, i + 1, mag);
}

/// Decoding an `enc_i32` embedded in `s` yields the value and lands just
/// after it.
proof fn lemma_dec_i32(s: Seq<u8>, i: int, x: int)
    requires
        -0x8000_0000 <= x < 0x8000_0000,
        0 <= i,
        i + 5 <= s.len(),
        s.subrange(i, i + 5) == enc_i32(x),
    ensures
        dec_i32(s, i) == Some((x, i + 5)),
{
    let e = enc_i32(x);
    let mag: int = if x < 0 {
        -x
    } else {
        x
    };
    lemma_u32le_len(mag);
    assert(e.len() == 5);
    assert(s[i] == e[0]);
    assert(s.subrange(i + 1, i + 5) =~= e.subrange(1, 5));
    assert(e.subrange(1, 5) =~= u32le(mag));
    lemma_rd_u32(s, i + 1, mag);
}

/// Decoding a `str_bytes` embedded in `s` yields the characters and lands
/// just after them.
proof fn lemma_dec_str(s: Seq<u8>, i: int, t: Seq<char>)
    requires
        str_ok(t),
        0 <= i,
        i + str_bytes(t).len() <= s.len(),
        s.subrange(i, i + str_bytes(t).len()) == str_bytes(t),
    ensures
        dec_str(s, i) == Some((t, i + str_bytes(t).len())),
{
    broadcast use group_codec_utf8;

    let eb = encode_utf8(t);
    let n = eb.len() as int;
    lemma_u64le_len(n);
    assert(str_bytes(t).len() == 8 + n);
    assert(s.subrange(i, i + 8) =~= str_bytes(t).subrange(0, 8));
    assert(str_bytes(t).subrange(0, 8) =~= u64le(n));
    lemma_rd_u64(s, i, n);
    assert(s.subrange(i + 8, i + 8 + n) =~= str_bytes(t).subrange(8, 8 + n));
    assert(str_bytes(t).subrange(8, 8 + n) =~= eb);
    assert(valid_utf8(eb));
    assert(decode_utf8(eb) == t);
}

/// A piece of an embedded whole is embedded at its offset.
proof fn lemma_sub_at(s: Seq<u8>, i: int, whole: Seq<u8>, lo: int, hi: int)
    requires
        0 <= i,
        i + whole.len() <= s.len(),
        s.subrange(i, i + whole.len() as int) == whole,
        0 <= lo <= hi <= whole.len(),
    ensures
        s.subrange(i + lo, i + hi) == whole.subrange(lo, hi),
{
    assert forall|j: int| 0 <= j < hi - lo implies s.subrange(i + lo, i + hi)[j] == whole.subrange(
        lo,
        hi,
    )[j] by {
        assert(whole[lo + j] == s.subrange(i, i + whole.len() as int)[lo + j]);
    }
    assert(s.subrange(i + lo, i + hi) =~= whole.subrange(lo, hi));
}

/// `enc_groups` of a list is the group encodings laid end to end, so its
/// length grows by whole groups.
proof fn lemma_dec_groups(s: Seq<u8>, i: int, gs: Seq<GroupView>)
    requires
        0 <= i,
        i + enc_groups(gs).len() <= s.len(),
        s.subrange(i, i + enc_groups(gs).len()) == enc_groups(gs),
        forall|k: int| 0 <= k < gs.len() ==> {
            &&& -0x8000_0000 <= (#[trigger] gs[k]).id < 0x8000_0000
            &&& str_ok(gs[k].name)
        },
    ensures
        dec_groups(s, i, gs.len() as int) == Some((gs, i + enc_groups(gs).len())),
    decreases gs.len(),
{
    if gs.len() == 0 {
        assert(dec_groups(s, i, 0) == Some((Seq::<GroupView>::empty(), i)));
        assert(gs =~= Seq::<GroupView>::empty());
    } else {
        let g = gs.first();
        let rest = gs.drop_first();
        let eg = enc_group(g);
        let er = enc_groups(rest);
        let whole = enc_groups(gs);
        assert(whole == eg + er);
        let e5 = enc_i32(g.id);
        let en = str_bytes(g.name);
        assert(eg == e5 + en);
        lemma_u32le_len(if g.id < 0 {
            -g.id
        } else {
            g.id
        });
        lemma_u64le_len(encode_utf8(g.name).len() as int);
        assert(e5.len() == 5);
        // carve the first group's encoding out of the whole
        assert(whole.subrange(0, eg.len() as int) =~= eg);
        lemma_sub_at(s, i, whole, 0, eg.len() as int);
        // the id
        assert(eg.subrange(0, 5) =~= e5);
        lemma_sub_at(s, i, eg, 0, 5);
        lemma_dec_i32(s, i, g.id);
        // the name
        assert(eg.subrange(5, eg.len() as int) =~= en);
        lemma_sub_at(s, i, eg, 5, eg.len() as int);
        lemma_dec_str(s, i + 5, g.name);
        let j = i + 5 + en.len();
        assert(dec_group(s, i) == Some((GroupView { id: g.id, name: g.name }, j)));
        assert(GroupView { id: g.id, name: g.name } == g);
        // the remaining groups
        assert(whole.subrange(eg.len() as int, whole.len() as int) =~= er);
        lemma_sub_at(s, i, whole, eg.len() as int, whole.len() as int);
        lemma_dec_groups(s, j, rest);
        assert(dec_groups(s, j, rest.len() as int) == Some((rest, j + er.len())));
        assert(gs =~= seq![g] + rest);
        assert(j + er.len() == i + enc_groups(gs).len());
    }
}

/// Round trip: decoding an encoded claims bundle returns the very claims.
#[verifier::rlimit(60)]
pub proof fn lemma_dec_enc_claims(c: ClaimsView)
    requires
        claims_wf(c),
    ensures
        spec_dec_claims(spec_enc_claims(c)) == Some(c),
{
    broadcast use group_codec_utf8;

    let a1 = enc_i64(c.exp);
    let a2 = str_bytes(c.jti);
    let a3 = str_bytes(c.company);
    let a4 = enc_i32(c.user.id);
    let a5 = str_bytes(c.user.login);
    let a6 = str_bytes(c.user.hash);
    let a7 = seq![role_tag(c.role)];
    let a8 = u64le(c.groups.len() as int);
    let a9 = enc_groups(c.groups);
    let b2 = a1 + a2;
    let b3 = b2 + a3;
    let b4 = b3 + a4;
    let b5 = b4 + a5;
    let b6 = b5 + a6;
    let b7 = b6 + a7;
    let b8 = b7 + a8;
    let s = spec_enc_claims(c);
    assert(s == b8 + a9);
    lemma_u64le_len(if c.exp < 0 {
        -c.exp
    } else {
        c.exp
    });
    lemma_u32le_len(if c.user.id < 0 {
        -c.user.id
    } else {
        c.user.id
    });
    lemma_u64le_len(encode_utf8(c.jti).len() as int);
    lemma_u64le_len(encode_utf8(c.company).len() as int);
    lemma_u64le_len(encode_utf8(c.user.login).len() as int);
    lemma_u64le_len(encode_utf8(c.user.hash).len() as int);
    lemma_u64le_len(c.groups.len() as int);
    assert(a1.len() == 9);
    let p0: int = 9;
    let p1 = p0 + a2.len();
    let p2 = p1 + a3.len();
    let p3 = p2 + 5;
    let p4 = p3 + a5.len();
    let p5 = p4 + a6.len();
    let p6 = p5 + 9;
    let p7 = p6 + a9.len();
    assert(s.len() == p7);
    // peel the concatenation from the right, one part at a time
    assert(s.subrange(0, s.len() as int) =~= s);
    assert(s.subrange(0, p6) =~= b8);
    assert(s.subrange(p6, p7) =~= a9);
    lemma_sub_at(s, 0, b8, 0, b7.len() as int);
    assert(b8.subrange(0, b7.len() as int) =~= b7);
    lemma_sub_at(s, 0, b8, b7.len() as int, b8.len() as int);
    assert(b8.subrange(b7.len() as int, b8.len() as int) =~= a8);
    lemma_sub_at(s, 0, b7, 0, b6.len() as int);
    assert(b7.subrange(0, b6.len() as int) =~= b6);
    lemma_sub_at(s, 0, b7, b6.len() as int, b7.len() as int);
    assert(b7.subrange(b6.len() as int, b7.len() as int) =~= a7);
    lemma_sub_at(s, 0, b6, 0, b5.len() as int);
    assert(b6.subrange(0, b5.len() as int) =~= b5);
    lemma_sub_at(s, 0, b6, b5.len() as int, b6.len() as int);
    assert(b6.subrange(b5.len() as int, b6.len() as int) =~= a6);
    lemma_sub_at(s, 0, b5, 0, b4.len() as int);
    assert(b5.subrange(0, b4.len() as int) =~= b4);
    lemma_sub_at(s, 0, b5, b4.len() as int, b5.len() as int);
    assert(b5.subrange(b4.len() as int, b5.len() as int) =~= a5);
    lemma_sub_at(s, 0, b4, 0, b3.len() as int);
    assert(b4.subrange(0, b3.len() as int) =~= b3);
    lemma_sub_at(s, 0, b4, b3.len() as int, b4.len() as int);
    assert(b4.subrange(b3.len() as int, b4.len() as int) =~= a4);
    lemma_sub_at(s, 0, b3, 0, b2.len() as int);
    assert(b3.subrange(0, b2.len() as int) =~= b2);
    lemma_sub_at(s, 0, b3, b2.len() as int, b3.len() as int);
    assert(b3.subrange(b2.len() as int, b3.len() as int) =~= a3);
    lemma_sub_at(s, 0, b2, 0, a1.len() as int);
    assert(b2.subrange(0, a1.len() as int) =~= a1);
    lemma_sub_at(s, 0, b2, a1.len() as int, b2.len() as int);
    assert(b2.subrange(a1.len() as int, b2.len() as int) =~= a2);
    // each field decodes at its offset
    lemma_dec_i64(s, 0, c.exp);
    lemma_dec_str(s, p0, c.jti);
    lemma_dec_str(s, p1, c.company);
    lemma_dec_i32(s, p2, c.user.id);
    lemma_dec_str(s, p3, c.user.login);
    lemma_dec_str(s, p4, c.user.hash);
    assert(s[p5] == a7[0]) by {
        assert(s.subrange(p5, p5 + 1) == a7);
        assert(s.subrange(p5, p5 + 1)[0] == s[p5]);
    }
    assert(tag_role(role_tag(c.role)) == Some(c.role));
    lemma_rd_u64(s, p5 + 1, c.groups.len() as int);
    lemma_dec_groups(s, p6, c.groups);
    assert(spec_dec_claims(s) == Some(
        ClaimsView {
            company: c.company,
            exp: c.exp,
            jti: c.jti,
            user: UserView { id: c.user.id, login: c.user.login, hash: c.user.hash },
            role: c.role,
            groups: c.groups,
        },
    ));
    assert(ClaimsView {
        company: c.company,
        exp: c.exp,
        jti: c.jti,
        user: UserView { id: c.user.id, login: c.user.login, hash: c.user.hash },
        role: c.role,
        groups: c.groups,
    } == c);
}

/// Appending one group to the list appends its encoding.
proof fn lemma_enc_groups_snoc(gs: Seq<GroupView>, g: GroupView)
    ensures
        enc_groups(gs.push(g)) == enc_groups(gs) + enc_group(g),
    decreases gs.len(),
{
    if gs.len() == 0 {
        assert(gs.push(g).first() == g);
        assert(gs.push(g).drop_first() =~= Seq::<GroupView>::empty());
        assert(enc_groups(gs.push(g)) == enc_group(g) + enc_groups(Seq::<GroupView>::empty()));
        assert(enc_group(g) + Seq::<u8>::empty() =~= enc_group(g));
        assert(enc_groups(gs) + enc_group(g) =~= enc_group(g));
    } else {
        assert(gs.push(g).first() == gs.first());
        assert(gs.push(g).drop_first() =~= gs.drop_first().push(g));
        lemma_enc_groups_snoc(gs.drop_first(), g);
        assert(enc_groups(gs.push(g)) == enc_group(gs.first()) + (enc_groups(gs.drop_first())
            + enc_group(g)));
        assert(enc_group(gs.first()) + (enc_groups(gs.drop_first()) + enc_group(g)) =~= (enc_group(
            gs.first(),
        ) + enc_groups(gs.drop_first())) + enc_group(g));
    }
}

// ---------------------------------------------------------------------
// Executable encoder
// ---------------------------------------------------------------------

fn push_u64(out: &mut Vec<u8>, n: u64)
    ensures
        final(out)@ == old(out)@ + u64le(n as int),
{
    let mut b = u64_to_le_bytes(n);
    out.append(&mut b);
    proof {
        assert((n as int) as u64 == n);
    }
}

fn push_u32(out: &mut Vec<u8>, n: u32)
    ensures
        final(out)@ == old(out)@ + u32le(n as int),
{
    let mut b = u32_to_le_bytes(n);
    out.append(&mut b);
    proof {
        assert((n as int) as u32 == n);
    }
}

fn push_i64(out: &mut Vec<u8>, x: i64)
    ensures
        final(out)@ == old(out)@ + enc_i64(x as int),
{
    let ghost o = out@;
    if x < 0 {
        out.push(1u8);
        let mag: u64 = (-(x as i128)) as u64;
        proof {
            assert(mag as int == -(x as int));
        }
        push_u64(out, mag);
        proof {
            assert(out@ =~= o + enc_i64(x as int));
        }
    } else {
        out.push(0u8);
        push_u64(out, x as u64);
        proof {
            assert(out@ =~= o + enc_i64(x as int));
        }
    }
}

fn push_i32(out: &mut Vec<u8>, x: i32)
    ensures
        final(out)@ == old(out)@ + enc_i32(x as int),
{
    let ghost o = out@;
    if x < 0 {
        out.push(1u8);
        let mag: u32 = (-(x as i64)) as u32;
        proof {
            assert(mag as int == -(x as int));
        }
        push_u32(out, mag);
        proof {
            assert(out@ =~= o + enc_i32(x as int));
        }
    } else {
        out.push(0u8);
        push_u32(out, x as u32);
        proof {
            assert(out@ =~= o + enc_i32(x as int));
        }
    }
}

fn push_str(out: &mut Vec<u8>, s: &str)
    ensures
        final(out)@ == old(out)@ + str_bytes(s@),
        str_ok(s@),
{
    let ghost o = out@;
    let mut bs = s.as_bytes_vec();
    push_u64(out, bs.len() as u64);
    out.append(&mut bs);
    proof {
        assert(out@ =~= o + str_bytes(s@));
    }
}

/// The role tag byte.
fn role_tag_of(r: &Role) -> (t: u8)
    ensures
        t == role_tag(*r),
{
    match r {
        Role::Root => 0,
        Role::Super => 1,
        Role::User => 2,
        Role::Visitor => 3,
    }
}

/// Lays a claims bundle out as bytes; as a byproduct the bundle is seen
/// to satisfy every bound of the layout.
pub fn encode_claims(c: &Claims) -> (out: Vec<u8>)
    ensures
        out@ == spec_enc_claims(c@),
        claims_wf(c@),
{
    let mut out: Vec<u8> = Vec::new();
    push_i64(&mut out, c.exp);
    push_str(&mut out, c.jti.as_str());
    push_str(&mut out, c.company.as_str());
    push_i32(&mut out, c.user.id);
    push_str(&mut out, c.user.login.as_str());
    push_str(&mut out, c.user.hash.as_str());
    out.push(role_tag_of(&c.role));
    push_u64(&mut out, c.groups.len() as u64);
    let ghost head = out@;
    let n = c.groups.len();
    let mut k: usize = 0;
    while k < n
        invariant
            n == c.groups@.len(),
            k <= n,
            out@ == head + enc_groups(c@.groups.subrange(0, k as int)),
            forall|j: int| 0 <= j < k ==> {
                &&& -0x8000_0000 <= (#[trigger] c@.groups[j]).id < 0x8000_0000
                &&& str_ok(c@.groups[j].name)
            },
        decreases n - k,
    {
        let ghost pre = c@.groups.subrange(0, k as int);
        push_i32(&mut out, c.groups[k].id);
        push_str(&mut out, c.groups[k].name.as_str());
        proof {
            let g = c@.groups[k as int];
            assert(g == c.groups@[k as int]@);
            lemma_enc_groups_snoc(pre, g);
            assert(c@.groups.subrange(0, k as int + 1) =~= pre.push(g));
            assert(out@ =~= head + enc_groups(c@.groups.subrange(0, k as int + 1)));
        }
        k += 1;
    }
    proof {
        assert(c@.groups.subrange(0, n as int) =~= c@.groups);
        assert(out@ =~= spec_enc_claims(c@));
    }
    out
}

// ---------------------------------------------------------------------
// Executable decoder
// ---------------------------------------------------------------------

fn read_u64(v: &Vec<u8>, i: usize) -> (r: u64)
    requires
        i + 8 <= v@.len(),
        v@.len() <= usize::MAX,
    ensures
        r as int == rd_u64(v@, i as int),
{
    u64_from_le_bytes(slice_subrange(v.as_slice(), i, i + 8))
}

fn read_u32(v: &Vec<u8>, i: usize) -> (r: u32)
    requires
        i + 4 <= v@.len(),
        v@.len() <= usize::MAX,
    ensures
        r as int == rd_u32(v@, i as int),
{
    u32_from_le_bytes(slice_subrange(v.as_slice(), i, i + 4))
}

fn read_i64(v: &Vec<u8>, i: usize) -> (r: Option<(i64, usize)>)
    ensures
        match r {
            Some((x, j)) => dec_i64(v@, i as int) == Some((x as int, j as int)) && j == i + 9
                && j <= v@.len(),
            None => dec_i64(v@, i as int) is None,
        },
{
    if v.len() < 9 || i > v.len() - 9 {
        return None;
    }
    let sign = v[i];
    let mag = read_u64(v, i + 1);
    if sign == 0 {
        if mag < 0x8000_0000_0000_0000 {
            Some((mag as i64, i + 9))
        } else {
            None
        }
    } else if sign == 1 {
        if 0 < mag && mag <= 0x8000_0000_0000_0000 {
            let x: i64 = (-(mag as i128)) as i64;
            proof {
                assert(x as int == -(mag as int));
            }
            Some((x, i + 9))
        } else {
            None
        }
    } else {
        None
    }
}

fn read_i32(v: &Vec<u8>, i: usize) -> (r: Option<(i32, usize)>)
    ensures
        match r {
            Some((x, j)) => dec_i32(v@, i as int) == Some((x as int, j as int)) && j == i + 5
                && j <= v@.len(),
            None => dec_i32(v@, i as int) is None,
        },
{
    if v.len() < 5 || i > v.len() - 5 {
        return None;
    }
    let sign = v[i];
    let mag = read_u32(v, i + 1);
    if sign == 0 {
        if mag < 0x8000_0000 {
            Some((mag as i32, i + 5))
        } else {
            None
        }
    } else if sign == 1 {
        if 0 < mag && mag <= 0x8000_0000 {
            let x: i32 = (-(mag as i64)) as i32;
            proof {
                assert(x as int == -(mag as int));
            }
            Some((x, i + 5))
        } else {
            None
        }
    } else {
        None
    }
}

fn read_str(v: &Vec<u8>, i: usize) -> (r: Option<(String, usize)>)
    ensures
        match r {
            Some((s, j)) => dec_str(v@, i as int) == Some((s@, j as int)) && i < j <= v@.len(),
            None => dec_str(v@, i as int) is None,
        },
{
    broadcast use group_codec_utf8;

    if v.len() < 8 || i > v.len() - 8 {
        return None;
    }
    let n = read_u64(v, i);
    let rem = v.len() - (i + 8);
    if n > rem as u64 {
        return None;
    }
    let nn = n as usize;
    proof {
        assert(nn as int == rd_u64(v@, i as int));
    }
    let bytes = slice_to_vec(slice_subrange(v.as_slice(), i + 8, i + 8 + nn));
    let ghost bs = v@.subrange(i as int + 8, i as int + 8 + nn as int);
    match string_from_bytes(bytes) {
        Some(s) => {
            proof {
                assert(vstd::utf8::encode_utf8(s@) == bs);
                assert(valid_utf8(bs));
                assert(decode_utf8(bs) == s@);
            }
            Some((s, i + 8 + nn))
        },
        None => {
            proof {
                assert(!valid_utf8(bs));
            }
            None
        },
    }
}

/// Reads a claims bundle back from bytes, as `spec_dec_claims` describes.
#[verifier::loop_isolation(false)]
pub fn decode_claims(v: &Vec<u8>) -> (r: Option<Claims>)
    ensures
        match r {
            Some(c) => spec_dec_claims(v@) == Some(c@),
            None => spec_dec_claims(v@) is None,
        },
{
    let (exp, p0) = match read_i64(v, 0) {
        Some(x) => x,
        None => {
            return None;
        },
    };
    let (jti, p1) = match read_str(v, p0) {
        Some(x) => x,
        None => {
            return None;
        },
    };
    let (company, p2) = match read_str(v, p1) {
        Some(x) => x,
        None => {
            return None;
        },
    };
    let (uid, p3) = match read_i32(v, p2) {
        Some(x) => x,
        None => {
            return None;
        },
    };
    let (login, p4) = match read_str(v, p3) {
        Some(x) => x,
        None => {
            return None;
        },
    };
    let (hash, p5) = match read_str(v, p4) {
        Some(x) => x,
        None => {
            return None;
        },
    };
    if p5 >= v.len() {
        return None;
    }
    let tag = v[p5];
    let role = if tag == 0 {
        Role::Root
    } else if tag == 1 {
        Role::Super
    } else if tag == 2 {
        Role::User
    } else if tag == 3 {
        Role::Visitor
    } else {
        return None;
    };
    if v.len() - p5 < 9 {
        return None;
    }
    let cnt = read_u64(v, p5 + 1);
    let start = p5 + 9;
    let ghost cnt_i = cnt as int;
    let mut groups: Vec<Group> = Vec::new();
    let mut pos: usize = start;
    let mut k: u64 = 0;
    while k < cnt
        invariant
            k <= cnt,
            pos <= v@.len(),
            cnt_i == cnt as int,
            dec_groups(v@, start as int, cnt_i) == (match dec_groups(
                v@,
                pos as int,
                cnt_i - k as int,
            ) {
                Some((rest, end)) => Some(
                    (groups@.map_values(|g: Group| g@) + rest, end),
                ),
                None => None::<(Seq<GroupView>, int)>,
            }),
        decreases cnt - k,
    {
        let ghost gs_pre = groups@.map_values(|g: Group| g@);
        let (gid, q1) = match read_i32(v, pos) {
            Some(x) => x,
            None => {
                proof {
                    assert(dec_group(v@, pos as int) is None);
                    assert(dec_groups(v@, pos as int, cnt_i - k as int) is None);
                }
                return None;
            },
        };
        let (gname, q2) = match read_str(v, q1) {
            Some(x) => x,
            None => {
                proof {
                    assert(dec_group(v@, pos as int) is None);
                    assert(dec_groups(v@, pos as int, cnt_i - k as int) is None);
                }
                return None;
            },
        };
        let g = Group { id: gid, name: gname };
        proof {
            let m = cnt_i - k as int;
            assert(dec_group(v@, pos as int) == Some((g@, q2 as int)));
            assert(dec_groups(v@, pos as int, m) == (match dec_groups(v@, q2 as int, m - 1) {
                Some((rest2, end2)) => Some((seq![g@] + rest2, end2)),
                None => None::<(Seq<GroupView>, int)>,
            }));
        }
        groups.push(g);
        proof {
            assert(groups@.map_values(|g2: Group| g2@) =~= gs_pre.push(g@));
            assert forall|rest2: Seq<GroupView>|
                true implies gs_pre + (seq![g@] + rest2) =~= gs_pre.push(g@) + rest2 by {}
        }
        pos = q2;
        k += 1;
    }
    proof {
        assert(dec_groups(v@, pos as int, 0) == Some((Seq::<GroupView>::empty(), pos as int)));
        assert(groups@.map_values(|g: Group| g@) + Seq::<GroupView>::empty() =~= groups@.map_values(
            |g: Group| g@,
        ));
    }
    if pos != v.len() {
        return None;
    }
    let c = Claims { company, exp, jti, user: User { id: uid, login, hash }, role, groups };
    proof {
        assert(spec_dec_claims(v@) == Some(c@));
    }
    Some(c)
}


// ---------------------------------------------------------------------
// Hex framing: payload bytes travel inside the token as lowercase hex,
// which keeps the separator character free for the signature.
// ---------------------------------------------------------------------

/// The lowercase hex digit of a value below sixteen.
pub open spec fn hex_digit(d: int) -> char
    recommends
        0 <= d < 16,
{
    if d == 0 {
        '0'
    } else if d == 1 {
        '1'
    } else if d == 2 {
        '2'
    } else if d == 3 {
        '3'
    } else if d == 4 {
        '4'
    } else if d == 5 {
        '5'
    } else if d == 6 {
        '6'
    } else if d == 7 {
        '7'
    } else if d == 8 {
        '8'
    } else if d == 9 {
        '9'
    } else if d == 10 {
        'a'
    } else if d == 11 {
        'b'
    } else if d == 12 {
        'c'
    } else if d == 13 {
        'd'
    } else if d == 14 {
        'e'
    } else {
        'f'
    }
}

/// The value of a lowercase hex digit.
pub open spec fn hex_val(c: char) -> Option<int> {
    if c == '0' {
        Some(0)
    } else if c == '1' {
        Some(1)
    } else if c == '2' {
        Some(2)
    } else if c == '3' {
        Some(3)
    } else if c == '4' {
        Some(4)
    } else if c == '5' {
        Some(5)
    } else if c == '6' {
        Some(6)
    } else if c == '7' {
        Some(7)
    } else if c == '8' {
        Some(8)
    } else if c == '9' {
        Some(9)
    } else if c == 'a' {
        Some(10)
    } else if c == 'b' {
        Some(11)
    } else if c == 'c' {
        Some(12)
    } else if c == 'd' {
        Some(13)
    } else if c == 'e' {
        Some(14)
    } else if c == 'f' {
        Some(15)
    } else {
        None
    }
}

/// Bytes as lowercase hex, two digits each.
pub open spec fn hex_chars(bs: Seq<u8>) -> Seq<char>
    decreases bs.len(),
{
    if bs.len() == 0 {
        Seq::empty()
    } else {
        hex_chars(bs.drop_last()) + seq![
            hex_digit(bs.last() as int / 16),
            hex_digit(bs.last() as int % 16),
        ]
    }
}

/// Reads hex back to bytes; anything but an even run of lowercase hex
/// digits is rejected.
pub open spec fn dec_hex(cs: Seq<char>) -> Option<Seq<u8>>
    decreases cs.len(),
{
    if cs.len() == 0 {
        Some(Seq::empty())
    } else if cs.len() == 1 {
        None
    } else {
        match dec_hex(cs.take(cs.len() - 2)) {
            None => None,
            Some(bs) => match (hex_val(cs[cs.len() - 2]), hex_val(cs[cs.len() - 1])) {
                (Some(h), Some(l)) => Some(bs.push((h * 16 + l) as u8)),
                _ => None,
            },
        }
    }
}

/// Hex writes two characters per byte.
pub proof fn lemma_hex_chars_len(bs: Seq<u8>)
    ensures
        hex_chars(bs).len() == 2 * bs.len(),
    decreases bs.len(),
{
    if bs.len() > 0 {
        lemma_hex_chars_len(bs.drop_last());
    }
}

/// Hex digits never collide with the token separator.
pub proof fn lemma_hex_chars_no_dot(bs: Seq<u8>)
    ensures
        forall|i: int| 0 <= i < hex_chars(bs).len() ==> hex_chars(bs)[i] != '.',
    decreases bs.len(),
{
    if bs.len() > 0 {
        lemma_hex_chars_no_dot(bs.drop_last());
        lemma_hex_chars_len(bs.drop_last());
    }
}

/// Round trip: hex encoding decodes to the original bytes.
pub proof fn lemma_dec_hex_chars(bs: Seq<u8>)
    ensures
        dec_hex(hex_chars(bs)) == Some(bs),
    decreases bs.len(),
{
    lemma_hex_chars_len(bs);
    if bs.len() == 0 {
        assert(hex_chars(bs) =~= Seq::<char>::empty());
        assert(bs =~= Seq::<u8>::empty());
    } else {
        let cs = hex_chars(bs);
        let b = bs.last() as int;
        lemma_hex_chars_len(bs.drop_last());
        assert(cs.take(cs.len() - 2) =~= hex_chars(bs.drop_last()));
        lemma_dec_hex_chars(bs.drop_last());
        assert(cs[cs.len() - 2] == hex_digit(b / 16));
        assert(cs[cs.len() - 1] == hex_digit(b % 16));
        assert(hex_val(hex_digit(b / 16)) == Some(b / 16));
        assert(hex_val(hex_digit(b % 16)) == Some(b % 16));
        assert((b / 16) * 16 + b % 16 == b);
        assert(bs.drop_last().push(((b / 16) * 16 + b % 16) as u8) =~= bs);
    }
}

/// A stray character anywhere spoils the whole hex run.
proof fn lemma_dec_hex_bad(cs: Seq<char>, p: int)
    requires
        0 <= p < cs.len(),
        hex_val(cs[p]) is None,
    ensures
        dec_hex(cs) is None,
    decreases cs.len(),
{
    if cs.len() == 0 {
    } else if cs.len() == 1 {
    } else {
        if p < cs.len() - 2 {
            assert(cs.take(cs.len() - 2)[p] == cs[p]);
            lemma_dec_hex_bad(cs.take(cs.len() - 2), p);
        }
    }
}

/// An odd run of characters is never hex.
proof fn lemma_dec_hex_odd(cs: Seq<char>)
    requires
        cs.len() % 2 == 1,
    ensures
        dec_hex(cs) is None,
    decreases cs.len(),
{
    if cs.len() > 1 {
        lemma_dec_hex_odd(cs.take(cs.len() - 2));
    }
}

/// One byte as its two hex digits.
fn hex_digit_of(d: u8) -> (c: char)
    requires
        d < 16,
    ensures
        c == hex_digit(d as int),
{
    if d == 0 {
        '0'
    } else if d == 1 {
        '1'
    } else if d == 2 {
        '2'
    } else if d == 3 {
        '3'
    } else if d == 4 {
        '4'
    } else if d == 5 {
        '5'
    } else if d == 6 {
        '6'
    } else if d == 7 {
        '7'
    } else if d == 8 {
        '8'
    } else if d == 9 {
        '9'
    } else if d == 10 {
        'a'
    } else if d == 11 {
        'b'
    } else if d == 12 {
        'c'
    } else if d == 13 {
        'd'
    } else if d == 14 {
        'e'
    } else {
        'f'
    }
}

/// The value of one hex character, if it is one.
fn hex_val_of(c: char) -> (r: Option<u8>)
    ensures
        match r {
            Some(d) => hex_val(c) == Some(d as int),
            None => hex_val(c) is None,
        },
{
    if c == '0' {
        Some(0)
    } else if c == '1' {
        Some(1)
    } else if c == '2' {
        Some(2)
    } else if c == '3' {
        Some(3)
    } else if c == '4' {
        Some(4)
    } else if c == '5' {
        Some(5)
    } else if c == '6' {
        Some(6)
    } else if c == '7' {
        Some(7)
    } else if c == '8' {
        Some(8)
    } else if c == '9' {
        Some(9)
    } else if c == 'a' {
        Some(10)
    } else if c == 'b' {
        Some(11)
    } else if c == 'c' {
        Some(12)
    } else if c == 'd' {
        Some(13)
    } else if c == 'e' {
        Some(14)
    } else if c == 'f' {
        Some(15)
    } else {
        None
    }
}

/// Writes bytes as lowercase hex characters.
#[verifier::loop_isolation(false)]
pub fn hex_encode(bs: &Vec<u8>) -> (out: Vec<char>)
    ensures
        out@ == hex_chars(bs@),
{
    let mut out: Vec<char> = Vec::new();
    let n = bs.len();
    let mut i: usize = 0;
    while i < n
        invariant
            i <= n,
            out@ == hex_chars(bs@.take(i as int)),
        decreases n - i,
    {
        let b = bs[i];
        out.push(hex_digit_of(b / 16));
        out.push(hex_digit_of(b % 16));
        proof {
            let t = bs@.take(i as int + 1);
            assert(t.drop_last() =~= bs@.take(i as int));
            assert(t.last() == bs@[i as int]);
            assert(out@ =~= hex_chars(t));
        }
        i += 1;
    }
    proof {
        assert(bs@.take(n as int) =~= bs@);
    }
    out
}

/// Reads the characters of `s` between `start` and `end` as hex bytes.
#[verifier::loop_isolation(false)]
pub fn hex_decode_range(s: &str, start: usize, end: usize) -> (r: Option<Vec<u8>>)
    requires
        start <= end <= s@.len(),
    ensures
        match r {
            Some(bs) => dec_hex(s@.subrange(start as int, end as int)) == Some(bs@),
            None => dec_hex(s@.subrange(start as int, end as int)) is None,
        },
{
    let ghost whole = s@.subrange(start as int, end as int);
    if (end - start) % 2 != 0 {
        proof {
            lemma_dec_hex_odd(whole);
        }
        return None;
    }
    let mut out: Vec<u8> = Vec::new();
    let mut i: usize = start;
    while i < end
        invariant
            start <= i <= end,
            (i - start) % 2 == 0,
            (end - start) % 2 == 0,
            dec_hex(s@.subrange(start as int, i as int)) == Some(out@),
        decreases end - i,
    {
        let hc = s.get_char(i);
        let lc = s.get_char(i + 1);
        let ghost t = s@.subrange(start as int, i as int + 2);
        proof {
            assert(t.take(t.len() - 2) =~= s@.subrange(start as int, i as int));
            assert(t[t.len() - 2] == s@[i as int]);
            assert(t[t.len() - 1] == s@[i as int + 1]);
        }
        let h = match hex_val_of(hc) {
            Some(d) => d,
            None => {
                proof {
                    assert(whole[i - start as int] == s@[i as int]);
                    lemma_dec_hex_bad(whole, i - start as int);
                }
                return None;
            },
        };
        let l = match hex_val_of(lc) {
            Some(d) => d,
            None => {
                proof {
                    assert(whole[i + 1 - start as int] == s@[i as int + 1]);
                    lemma_dec_hex_bad(whole, i + 1 - start as int);
                }
                return None;
            },
        };
        out.push(h * 16 + l);
        i += 2;
    }
    proof {
        assert(s@.subrange(start as int, end as int) == s@.subrange(start as int, i as int));
    }
    Some(out)
}

} // verus!
