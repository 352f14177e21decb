//! Profiles: creation, partial update with versioning, canonical text,
//! content address and signatures.

use vstd::prelude::*;
use crate::codec::{json_opt_string, json_string, decimal, opt_view, push_decimal, push_json_opt_string, push_json_string, push_str, clone_opt_string};
use crate::crypto::{KeyInfo, KeyPair, random_uuid, sha256_hex, lower_hex, sha256_digest, signature_valid, signing_outcome, secret_key_usable, verify_signature};
use crate::error::CoreError;
use crate::time::Timestamp;
use vstd::seq_lib::lemma_concat_associative;
use crate::canon::{lemma_decimal_unique, lemma_opt_string_unique, lemma_prefix_cancel, lemma_rfc3339_unique, lemma_string_unique};
use crate::parse::{chars_of, expect_literal, lemma_join, parse_decimal, parse_json_opt_string, parse_json_string};

verus! {

/// A user's public profile.
#[derive(Debug)]
pub struct Profile {
    pub id: String,
    pub username: String,
    pub display_name: Option<String>,
    pub bio: Option<String>,
    pub avatar_hash: Option<String>,
    pub public_key: String,
    pub fingerprint: String,
    pub created_at: Timestamp,
    pub updated_at: Timestamp,
    pub version: u32,
    pub magnet_uri: Option<String>,
}

/// A profile with a signature over its canonical form.
#[derive(Debug)]
pub struct SignedProfile {
    pub profile: Profile,
    pub signature: String,
}

/// The canonical JSON text of a profile: every field, in this order, absent
/// values as `null`.
#[verifier::opaque]
pub open spec fn canonical_profile(p: Profile) -> Seq<char> {
    "{\"id\":"@ + json_string(p.id@)
        + ",\"username\":"@ + json_string(p.username@)
        + ",\"displayName\":"@ + json_opt_string(opt_view(&p.display_name))
        + ",\"bio\":"@ + json_opt_string(opt_view(&p.bio))
        + ",\"avatarHash\":"@ + json_opt_string(opt_view(&p.avatar_hash))
        + ",\"publicKey\":"@ + json_string(p.public_key@)
        + ",\"fingerprint\":"@ + json_string(p.fingerprint@)
        + ",\"createdAt\":\""@ + p.created_at.rfc3339()
        + "\",\"updatedAt\":\""@ + p.updated_at.rfc3339()
        + "\",\"version\":"@ + decimal(p.version as nat)
        + ",\"magnetUri\":"@ + json_opt_string(opt_view(&p.magnet_uri))
        + "}"@
}

/// The canonical text of a profile from its `username` key on.
pub open spec fn profile_tail_username(p: Profile) -> Seq<char> {
    ",\"username\":"@ + (json_string(p.username@) + profile_tail_display_name(p))
}

/// The canonical text of a profile from its `displayName` key on.
pub open spec fn profile_tail_display_name(p: Profile) -> Seq<char> {
    ",\"displayName\":"@ + (json_opt_string(opt_view(&p.display_name)) + profile_tail_bio(p))
}

/// The canonical text of a profile from its `bio` key on.
pub open spec fn profile_tail_bio(p: Profile) -> Seq<char> {
    ",\"bio\":"@ + (json_opt_string(opt_view(&p.bio)) + profile_tail_avatar_hash(p))
}

/// The canonical text of a profile from its `avatarHash` key on.
pub open spec fn profile_tail_avatar_hash(p: Profile) -> Seq<char> {
    ",\"avatarHash\":"@ + (json_opt_string(opt_view(&p.avatar_hash)) + profile_tail_public_key(p))
}

/// The canonical text of a profile from its `publicKey` key on.
pub open spec fn profile_tail_public_key(p: Profile) -> Seq<char> {
    ",\"publicKey\":"@ + (json_string(p.public_key@) + profile_tail_fingerprint(p))
}

/// The canonical text of a profile from its `fingerprint` key on.
pub open spec fn profile_tail_fingerprint(p: Profile) -> Seq<char> {
    ",\"fingerprint\":"@ + (json_string(p.fingerprint@) + profile_tail_created_at(p))
}

/// The canonical text of a profile from its `createdAt` key on.
pub open spec fn profile_tail_created_at(p: Profile) -> Seq<char> {
    ",\"createdAt\":\""@ + (p.created_at.rfc3339() + profile_tail_updated_at(p))
}

/// The canonical text of a profile from the end of `createdAt` on.
pub open spec fn profile_tail_updated_at(p: Profile) -> Seq<char> {
    "\",\"updatedAt\":\""@ + (p.updated_at.rfc3339() + profile_tail_version(p))
}

/// The canonical text of a profile from the end of `updatedAt` on.
pub open spec fn profile_tail_version(p: Profile) -> Seq<char> {
    "\",\"version\":"@ + (decimal(p.version as nat) + profile_tail_magnet_uri(p))
}

/// The canonical text of a profile from its `magnetUri` key on.
pub open spec fn profile_tail_magnet_uri(p: Profile) -> Seq<char> {
    ",\"magnetUri\":"@ + (json_opt_string(opt_view(&p.magnet_uri)) + "}"@)
}

proof fn lemma_canonical_profile_tails(p: Profile)
    ensures
        canonical_profile(p) == "{\"id\":"@ + (json_string(p.id@) + profile_tail_username(p)),
{
    let l0 = "{\"id\":"@;
    let l1 = l0 + json_string(p.id@);
    let l2 = l1 + ",\"username\":"@;
    let l3 = l2 + json_string(p.username@);
    let l4 = l3 + ",\"displayName\":"@;
    let l5 = l4 + json_opt_string(opt_view(&p.display_name));
    let l6 = l5 + ",\"bio\":"@;
    let l7 = l6 + json_opt_string(opt_view(&p.bio));
    let l8 = l7 + ",\"avatarHash\":"@;
    let l9 = l8 + json_opt_string(opt_view(&p.avatar_hash));
    let l10 = l9 + ",\"publicKey\":"@;
    let l11 = l10 + json_string(p.public_key@);
    let l12 = l11 + ",\"fingerprint\":"@;
    let l13 = l12 + json_string(p.fingerprint@);
    let l14 = l13 + ",\"createdAt\":\""@;
    let l15 = l14 + p.created_at.rfc3339();
    let l16 = l15 + "\",\"updatedAt\":\""@;
    let l17 = l16 + p.updated_at.rfc3339();
    let l18 = l17 + "\",\"version\":"@;
    let l19 = l18 + decimal(p.version as nat);
    let l20 = l19 + ",\"magnetUri\":"@;
    let l21 = l20 + json_opt_string(opt_view(&p.magnet_uri));
    let l22 = l21 + "}"@;
    let r22 = "}"@;
    let r21 = json_opt_string(opt_view(&p.magnet_uri)) + r22;
    let r20 = ",\"magnetUri\":"@ + r21;
    let r19 = decimal(p.version as nat) + r20;
    let r18 = "\",\"version\":"@ + r19;
    let r17 = p.updated_at.rfc3339() + r18;
    let r16 = "\",\"updatedAt\":\""@ + r17;
    let r15 = p.created_at.rfc3339() + r16;
    let r14 = ",\"createdAt\":\""@ + r15;
    let r13 = json_string(p.fingerprint@) + r14;
    let r12 = ",\"fingerprint\":"@ + r13;
    let r11 = json_string(p.public_key@) + r12;
    let r10 = ",\"publicKey\":"@ + r11;
    let r9 = json_opt_string(opt_view(&p.avatar_hash)) + r10;
    let r8 = ",\"avatarHash\":"@ + r9;
    let r7 = json_opt_string(opt_view(&p.bio)) + r8;
    let r6 = ",\"bio\":"@ + r7;
    let r5 = json_opt_string(opt_view(&p.display_name)) + r6;
    let r4 = ",\"displayName\":"@ + r5;
    let r3 = json_string(p.username@) + r4;
    let r2 = ",\"username\":"@ + r3;
    let r1 = json_string(p.id@) + r2;
    reveal(canonical_profile);
    assert(canonical_profile(p) == l22);
    lemma_concat_associative(l20, json_opt_string(opt_view(&p.magnet_uri)), r22);
    lemma_concat_associative(l19, ",\"magnetUri\":"@, r21);
    lemma_concat_associative(l18, decimal(p.version as nat), r20);
    lemma_concat_associative(l17, "\",\"version\":"@, r19);
    lemma_concat_associative(l16, p.updated_at.rfc3339(), r18);
    lemma_concat_associative(l15, "\",\"updatedAt\":\""@, r17);
    lemma_concat_associative(l14, p.created_at.rfc3339(), r16);
    lemma_concat_associative(l13, ",\"createdAt\":\""@, r15);
    lemma_concat_associative(l12, json_string(p.fingerprint@), r14);
    lemma_concat_associative(l11, ",\"fingerprint\":"@, r13);
    lemma_concat_associative(l10, json_string(p.public_key@), r12);
    lemma_concat_associative(l9, ",\"publicKey\":"@, r11);
    lemma_concat_associative(l8, json_opt_string(opt_view(&p.avatar_hash)), r10);
    lemma_concat_associative(l7, ",\"avatarHash\":"@, r9);
    lemma_concat_associative(l6, json_opt_string(opt_view(&p.bio)), r8);
    lemma_concat_associative(l5, ",\"bio\":"@, r7);
    lemma_concat_associative(l4, json_opt_string(opt_view(&p.display_name)), r6);
    lemma_concat_associative(l3, ",\"displayName\":"@, r5);
    lemma_concat_associative(l2, json_string(p.username@), r4);
    lemma_concat_associative(l1, ",\"username\":"@, r3);
    lemma_concat_associative(l0, json_string(p.id@), r2);
    assert(l0 + r1 == l22);
}

/// Profiles with well-formed timestamps have the same canonical text only
/// when every field is the same. So changing any field, the version alone
/// included, changes the text that signatures and content addresses cover.
pub proof fn lemma_canonical_profile_injective(p: Profile, q: Profile)
    requires
        p.created_at.wf(),
        p.updated_at.wf(),
        q.created_at.wf(),
        q.updated_at.wf(),
        canonical_profile(p) == canonical_profile(q),
    ensures
        p.id@ == q.id@,
        p.username@ == q.username@,
        opt_view(&p.display_name) == opt_view(&q.display_name),
        opt_view(&p.bio) == opt_view(&q.bio),
        opt_view(&p.avatar_hash) == opt_view(&q.avatar_hash),
        p.public_key@ == q.public_key@,
        p.fingerprint@ == q.fingerprint@,
        p.created_at == q.created_at,
        p.updated_at == q.updated_at,
        p.version == q.version,
        opt_view(&p.magnet_uri) == opt_view(&q.magnet_uri),
{
    lemma_canonical_profile_tails(p);
    lemma_canonical_profile_tails(q);
    lemma_prefix_cancel("{\"id\":"@, json_string(p.id@) + profile_tail_username(p), json_string(q.id@) + profile_tail_username(q));
    lemma_string_unique(p.id@, q.id@, profile_tail_username(p), profile_tail_username(q));
    lemma_prefix_cancel(",\"username\":"@, json_string(p.username@) + profile_tail_display_name(p), json_string(q.username@) + profile_tail_display_name(q));
    lemma_string_unique(p.username@, q.username@, profile_tail_display_name(p), profile_tail_display_name(q));
    lemma_prefix_cancel(",\"displayName\":"@, json_opt_string(opt_view(&p.display_name)) + profile_tail_bio(p), json_opt_string(opt_view(&q.display_name)) + profile_tail_bio(q));
    lemma_opt_string_unique(opt_view(&p.display_name), opt_view(&q.display_name), profile_tail_bio(p), profile_tail_bio(q));
    lemma_prefix_cancel(",\"bio\":"@, json_opt_string(opt_view(&p.bio)) + profile_tail_avatar_hash(p), json_opt_string(opt_view(&q.bio)) + profile_tail_avatar_hash(q));
    lemma_opt_string_unique(opt_view(&p.bio), opt_view(&q.bio), profile_tail_avatar_hash(p), profile_tail_avatar_hash(q));
    lemma_prefix_cancel(",\"avatarHash\":"@, json_opt_string(opt_view(&p.avatar_hash)) + profile_tail_public_key(p), json_opt_string(opt_view(&q.avatar_hash)) + profile_tail_public_key(q));
    lemma_opt_string_unique(opt_view(&p.avatar_hash), opt_view(&q.avatar_hash), profile_tail_public_key(p), profile_tail_public_key(q));
    lemma_prefix_cancel(",\"publicKey\":"@, json_string(p.public_key@) + profile_tail_fingerprint(p), json_string(q.public_key@) + profile_tail_fingerprint(q));
    lemma_string_unique(p.public_key@, q.public_key@, profile_tail_fingerprint(p), profile_tail_fingerprint(q));
    lemma_prefix_cancel(",\"fingerprint\":"@, json_string(p.fingerprint@) + profile_tail_created_at(p), json_string(q.fingerprint@) + profile_tail_created_at(q));
    lemma_string_unique(p.fingerprint@, q.fingerprint@, profile_tail_created_at(p), profile_tail_created_at(q));
    lemma_prefix_cancel(",\"createdAt\":\""@, p.created_at.rfc3339() + profile_tail_updated_at(p), q.created_at.rfc3339() + profile_tail_updated_at(q));
    lemma_rfc3339_unique(p.created_at, q.created_at, profile_tail_updated_at(p), profile_tail_updated_at(q));
    lemma_prefix_cancel("\",\"updatedAt\":\""@, p.updated_at.rfc3339() + profile_tail_version(p), q.updated_at.rfc3339() + profile_tail_version(q));
    lemma_rfc3339_unique(p.updated_at, q.updated_at, profile_tail_version(p), profile_tail_version(q));
    lemma_prefix_cancel("\",\"version\":"@, decimal(p.version as nat) + profile_tail_magnet_uri(p), decimal(q.version as nat) + profile_tail_magnet_uri(q));
    reveal_strlit(",\"magnetUri\":");
    assert(profile_tail_magnet_uri(p)[0] == ',');
    assert(profile_tail_magnet_uri(q)[0] == ',');
    lemma_decimal_unique(p.version as nat, q.version as nat, profile_tail_magnet_uri(p), profile_tail_magnet_uri(q));
    lemma_prefix_cancel(",\"magnetUri\":"@, json_opt_string(opt_view(&p.magnet_uri)) + "}"@, json_opt_string(opt_view(&q.magnet_uri)) + "}"@);
    lemma_opt_string_unique(opt_view(&p.magnet_uri), opt_view(&q.magnet_uri), "}"@, "}"@);
}

/// Profiles whose fields read the same have the same canonical text and the
/// same content address: both depend on the content alone.
pub proof fn lemma_magnet_deterministic(p: Profile, q: Profile)
    requires
        p.id@ == q.id@,
        p.username@ == q.username@,
        opt_view(&p.display_name) == opt_view(&q.display_name),
        opt_view(&p.bio) == opt_view(&q.bio),
        opt_view(&p.avatar_hash) == opt_view(&q.avatar_hash),
        p.public_key@ == q.public_key@,
        p.fingerprint@ == q.fingerprint@,
        p.created_at == q.created_at,
        p.updated_at == q.updated_at,
        p.version == q.version,
        opt_view(&p.magnet_uri) == opt_view(&q.magnet_uri),
    ensures
        canonical_profile(p) == canonical_profile(q),
        magnet_text(p) == magnet_text(q),
{
    reveal(canonical_profile);
    reveal(magnet_text);
}

/// An update always changes the canonical text, so a signature made over
/// the text before the update no longer covers the profile after it.
pub proof fn lemma_update_changes_canonical_text(old: Profile, new: Profile, display_name: Option<Seq<char>>, bio: Option<Seq<char>>, now: Timestamp)
    requires
        old.created_at.wf(),
        old.updated_at.wf(),
        new.created_at.wf(),
        now.wf(),
        new.same_identity(&old),
        (opt_view(&new.display_name), opt_view(&new.bio), new.updated_at, new.version as int)
            == updated_profile(old, display_name, bio, now),
    ensures
        canonical_profile(new) != canonical_profile(old),
{
    old.updated_at.lemma_successor();
    if canonical_profile(new) == canonical_profile(old) {
        lemma_canonical_profile_injective(new, old);
    }
}

/// The content address of a profile: SHA-256 of its canonical text in
/// hexadecimal, labelled with the username.
#[verifier::opaque]
pub open spec fn magnet_text(p: Profile) -> Seq<char> {
    "magnet:?xt=urn:btih:"@ + lower_hex(sha256_digest(vstd::utf8::encode_utf8(canonical_profile(p))))
        + "&dn=profile_"@ + p.username@
}

/// What `update` leaves of `old` given the new fields and the clock's
/// reading `now`: the update time is `now` when that is later than the last
/// update, else the instant right after it.
pub open spec fn updated_profile(old: Profile, display_name: Option<Seq<char>>, bio: Option<Seq<char>>, now: Timestamp) -> (Option<Seq<char>>, Option<Seq<char>>, Timestamp, int) {
    (
        if display_name is Some { display_name } else { opt_view(&old.display_name) },
        if bio is Some { bio } else { opt_view(&old.bio) },
        old.updated_at.advance(now),
        old.version + 1,
    )
}

/// An update raises the version by exactly one, moves the update time
/// strictly forward whatever the clock reads, and keeps the creation time.
/// The one exception is a profile last updated at the last instant that can
/// be written, which no later time follows.
pub proof fn lemma_update_monotone(old: Profile, new: Profile, display_name: Option<Seq<char>>, bio: Option<Seq<char>>, now: Timestamp)
    requires
        new.same_identity(&old),
        (opt_view(&new.display_name), opt_view(&new.bio), new.updated_at, new.version as int)
            == updated_profile(old, display_name, bio, now),
        !old.updated_at.is_last(),
    ensures
        new.version == old.version + 1,
        new.updated_at.later_than(old.updated_at),
        new.created_at == old.created_at,
{
    old.updated_at.lemma_successor();
}

/// Reads the identity fields of a profile's canonical text at `pos`, up to
/// the `createdAt` key.
fn read_profile_identity(s: &Vec<char>, pos: usize) -> (r: Option<(String, String, Option<String>, Option<String>, Option<String>, String, String, usize)>)
    requires
        pos <= s@.len(),
    ensures
        r matches Some((id, username, display_name, bio, avatar_hash, public_key, fingerprint, e)) ==> pos <= e <= s@.len()
            && s@.subrange(pos as int, e as int) == "{\"id\":"@ + json_string(id@) + ",\"username\":"@ + json_string(username@) + ",\"displayName\":"@ + json_opt_string(opt_view(&display_name)) + ",\"bio\":"@ + json_opt_string(opt_view(&bio)) + ",\"avatarHash\":"@ + json_opt_string(opt_view(&avatar_hash)) + ",\"publicKey\":"@ + json_string(public_key@) + ",\"fingerprint\":"@ + json_string(fingerprint@),
        forall|q: Profile| q.created_at.wf() && q.updated_at.wf() && #[trigger] ("{\"id\":"@ + (json_string(q.id@) + profile_tail_username(q))) == s@.skip(pos as int)
            ==> (r matches Some((id, username, display_name, bio, avatar_hash, public_key, fingerprint, e))
                && s@.skip(e as int) == profile_tail_created_at(q)),
{
    let ghost cond = exists|q: Profile| q.created_at.wf() && q.updated_at.wf() && #[trigger] ("{\"id\":"@ + (json_string(q.id@) + profile_tail_username(q))) == s@.skip(pos as int);
    let ghost mut gq: Profile = arbitrary();
    proof {
        if cond {
            gq = choose|q: Profile| q.created_at.wf() && q.updated_at.wf() && #[trigger] ("{\"id\":"@ + (json_string(q.id@) + profile_tail_username(q))) == s@.skip(pos as int);
        }
    }
        let p1 = match expect_literal(s, pos, "{\"id\":") { Some(x) => x, None => { return None; } };
        proof {
            if cond {
                crate::time::lemma_skip_piece(s@, pos as int, "{\"id\":"@, (json_string(gq.id@) + profile_tail_username(gq)));
            }
        }
        let (id, p2) = match parse_json_string(s, p1) { Some(x) => x, None => { return None; } };
        proof {
            if cond {
                crate::time::lemma_skip_piece(s@, p1 as int, json_string(gq.id@), profile_tail_username(gq));
            }
        }
        let p3 = match expect_literal(s, p2, ",\"username\":") { Some(x) => x, None => { return None; } };
        proof {
            if cond {
                crate::time::lemma_skip_piece(s@, p2 as int, ",\"username\":"@, (json_string(gq.username@) + profile_tail_display_name(gq)));
            }
        }
        let (username, p4) = match parse_json_string(s, p3) { Some(x) => x, None => { return None; } };
        proof {
            if cond {
                crate::time::lemma_skip_piece(s@, p3 as int, json_string(gq.username@), profile_tail_display_name(gq));
            }
        }
        let p5 = match expect_literal(s, p4, ",\"displayName\":") { Some(x) => x, None => { return None; } };
        proof {
            if cond {
                crate::time::lemma_skip_piece(s@, p4 as int, ",\"displayName\":"@, (json_opt_string(opt_view(&gq.display_name)) + profile_tail_bio(gq)));
            }
        }
        let (display_name, p6) = match parse_json_opt_string(s, p5) { Some(x) => x, None => { return None; } };
        proof {
            if cond {
                crate::time::lemma_skip_piece(s@, p5 as int, json_opt_string(opt_view(&gq.display_name)), profile_tail_bio(gq));
            }
        }
        let p7 = match expect_literal(s, p6, ",\"bio\":") { Some(x) => x, None => { return None; } };
        proof {
            if cond {
                crate::time::lemma_skip_piece(s@, p6 as int, ",\"bio\":"@, (json_opt_string(opt_view(&gq.bio)) + profile_tail_avatar_hash(gq)));
            }
        }
        let (bio, p8) = match parse_json_opt_string(s, p7) { Some(x) => x, None => { return None; } };
        proof {
            if cond {
                crate::time::lemma_skip_piece(s@, p7 as int, json_opt_string(opt_view(&gq.bio)), profile_tail_avatar_hash(gq));
            }
        }
        let p9 = match expect_literal(s, p8, ",\"avatarHash\":") { Some(x) => x, None => { return None; } };
        proof {
            if cond {
                crate::time::lemma_skip_piece(s@, p8 as int, ",\"avatarHash\":"@, (json_opt_string(opt_view(&gq.avatar_hash)) + profile_tail_public_key(gq)));
            }
        }
        let (avatar_hash, p10) = match parse_json_opt_string(s, p9) { Some(x) => x, None => { return None; } };
        proof {
            if cond {
                crate::time::lemma_skip_piece(s@, p9 as int, json_opt_string(opt_view(&gq.avatar_hash)), profile_tail_public_key(gq));
            }
        }
        let p11 = match expect_literal(s, p10, ",\"publicKey\":") { Some(x) => x, None => { return None; } };
        proof {
            if cond {
                crate::time::lemma_skip_piece(s@, p10 as int, ",\"publicKey\":"@, (json_string(gq.public_key@) + profile_tail_fingerprint(gq)));
            }
        }
        let (public_key, p12) = match parse_json_string(s, p11) { Some(x) => x, None => { return None; } };
        proof {
            if cond {
                crate::time::lemma_skip_piece(s@, p11 as int, json_string(gq.public_key@), profile_tail_fingerprint(gq));
            }
        }
        let p13 = match expect_literal(s, p12, ",\"fingerprint\":") { Some(x) => x, None => { return None; } };
        proof {
            if cond {
                crate::time::lemma_skip_piece(s@, p12 as int, ",\"fingerprint\":"@, (json_string(gq.fingerprint@) + profile_tail_created_at(gq)));
            }
        }
        let (fingerprint, p14) = match parse_json_string(s, p13) { Some(x) => x, None => { return None; } };
        proof {
            if cond {
                crate::time::lemma_skip_piece(s@, p13 as int, json_string(gq.fingerprint@), profile_tail_created_at(gq));
            }
        }
    proof {
            let q = s@;
            lemma_join(q, pos as int, p1 as int, p2 as int);
            lemma_join(q, pos as int, p2 as int, p3 as int);
            lemma_join(q, pos as int, p3 as int, p4 as int);
            lemma_join(q, pos as int, p4 as int, p5 as int);
            lemma_join(q, pos as int, p5 as int, p6 as int);
            lemma_join(q, pos as int, p6 as int, p7 as int);
            lemma_join(q, pos as int, p7 as int, p8 as int);
            lemma_join(q, pos as int, p8 as int, p9 as int);
            lemma_join(q, pos as int, p9 as int, p10 as int);
            lemma_join(q, pos as int, p10 as int, p11 as int);
            lemma_join(q, pos as int, p11 as int, p12 as int);
            lemma_join(q, pos as int, p12 as int, p13 as int);
            lemma_join(q, pos as int, p13 as int, p14 as int);
        if cond {
            assert forall|q: Profile| q.created_at.wf() && q.updated_at.wf() && #[trigger] ("{\"id\":"@ + (json_string(q.id@) + profile_tail_username(q))) == s@.skip(pos as int)
                implies s@.skip(p14 as int) == profile_tail_created_at(q) by {
                lemma_prefix_cancel("{\"id\":"@, json_string(q.id@) + profile_tail_username(q), json_string(gq.id@) + profile_tail_username(gq));
                lemma_string_unique(q.id@, gq.id@, profile_tail_username(q), profile_tail_username(gq));
                lemma_prefix_cancel(",\"username\":"@, json_string(q.username@) + profile_tail_display_name(q), json_string(gq.username@) + profile_tail_display_name(gq));
                lemma_string_unique(q.username@, gq.username@, profile_tail_display_name(q), profile_tail_display_name(gq));
                lemma_prefix_cancel(",\"displayName\":"@, json_opt_string(opt_view(&q.display_name)) + profile_tail_bio(q), json_opt_string(opt_view(&gq.display_name)) + profile_tail_bio(gq));
                lemma_opt_string_unique(opt_view(&q.display_name), opt_view(&gq.display_name), profile_tail_bio(q), profile_tail_bio(gq));
                lemma_prefix_cancel(",\"bio\":"@, json_opt_string(opt_view(&q.bio)) + profile_tail_avatar_hash(q), json_opt_string(opt_view(&gq.bio)) + profile_tail_avatar_hash(gq));
                lemma_opt_string_unique(opt_view(&q.bio), opt_view(&gq.bio), profile_tail_avatar_hash(q), profile_tail_avatar_hash(gq));
                lemma_prefix_cancel(",\"avatarHash\":"@, json_opt_string(opt_view(&q.avatar_hash)) + profile_tail_public_key(q), json_opt_string(opt_view(&gq.avatar_hash)) + profile_tail_public_key(gq));
                lemma_opt_string_unique(opt_view(&q.avatar_hash), opt_view(&gq.avatar_hash), profile_tail_public_key(q), profile_tail_public_key(gq));
                lemma_prefix_cancel(",\"publicKey\":"@, json_string(q.public_key@) + profile_tail_fingerprint(q), json_string(gq.public_key@) + profile_tail_fingerprint(gq));
                lemma_string_unique(q.public_key@, gq.public_key@, profile_tail_fingerprint(q), profile_tail_fingerprint(gq));
                lemma_prefix_cancel(",\"fingerprint\":"@, json_string(q.fingerprint@) + profile_tail_created_at(q), json_string(gq.fingerprint@) + profile_tail_created_at(gq));
                lemma_string_unique(q.fingerprint@, gq.fingerprint@, profile_tail_created_at(q), profile_tail_created_at(gq));
            }
        }
    }
    Some((id, username, display_name, bio, avatar_hash, public_key, fingerprint, p14))
}

/// Reads the rest of a profile's canonical text at `pos`, from the
/// `createdAt` key to the closing brace.
#[verifier::rlimit(100)]
#[verifier::spinoff_prover]
fn read_profile_times(s: &Vec<char>, pos: usize) -> (r: Option<(Timestamp, Timestamp, u32, Option<String>, usize)>)
    requires
        pos <= s@.len(),
    ensures
        r matches Some((created_at, updated_at, version, magnet_uri, e)) ==> pos <= e <= s@.len()
            && s@.subrange(pos as int, e as int) == ",\"createdAt\":\""@ + created_at.rfc3339() + "\",\"updatedAt\":\""@ + updated_at.rfc3339() + "\",\"version\":"@ + decimal(version as nat) + ",\"magnetUri\":"@ + json_opt_string(opt_view(&magnet_uri)) + "}"@,
        forall|q: Profile| q.created_at.wf() && q.updated_at.wf() && #[trigger] profile_tail_created_at(q) == s@.skip(pos as int)
            ==> (r matches Some((created_at, updated_at, version, magnet_uri, e))
                && created_at == q.created_at && updated_at == q.updated_at && e == s@.len()),
{
    let ghost cond = exists|q: Profile| q.created_at.wf() && q.updated_at.wf() && #[trigger] profile_tail_created_at(q) == s@.skip(pos as int);
    let ghost mut gq: Profile = arbitrary();
    proof {
        if cond {
            gq = choose|q: Profile| q.created_at.wf() && q.updated_at.wf() && #[trigger] profile_tail_created_at(q) == s@.skip(pos as int);
            reveal_strlit(",\"magnetUri\":");
            assert(profile_tail_magnet_uri(gq)[0] == ',');
        }
    }
        let p15 = match expect_literal(s, pos, ",\"createdAt\":\"") { Some(x) => x, None => { return None; } };
        proof {
            if cond {
                crate::time::lemma_skip_piece(s@, pos as int, ",\"createdAt\":\""@, (gq.created_at.rfc3339() + profile_tail_updated_at(gq)));
            }
        }
        let (created_at, p16) = match Timestamp::parse_rfc3339(s, p15) { Some(x) => x, None => { return None; } };
        proof {
            if cond {
                crate::time::lemma_skip_piece(s@, p15 as int, gq.created_at.rfc3339(), profile_tail_updated_at(gq));
            }
        }
        let p17 = match expect_literal(s, p16, "\",\"updatedAt\":\"") { Some(x) => x, None => { return None; } };
        proof {
            if cond {
                crate::time::lemma_skip_piece(s@, p16 as int, "\",\"updatedAt\":\""@, (gq.updated_at.rfc3339() + profile_tail_version(gq)));
            }
        }
        let (updated_at, p18) = match Timestamp::parse_rfc3339(s, p17) { Some(x) => x, None => { return None; } };
        proof {
            if cond {
                crate::time::lemma_skip_piece(s@, p17 as int, gq.updated_at.rfc3339(), profile_tail_version(gq));
            }
        }
        let p19 = match expect_literal(s, p18, "\",\"version\":") { Some(x) => x, None => { return None; } };
        proof {
            if cond {
                crate::time::lemma_skip_piece(s@, p18 as int, "\",\"version\":"@, (decimal(gq.version as nat) + profile_tail_magnet_uri(gq)));
            }
        }
        let (version, p20) = match parse_decimal(s, p19) { Some(x) => x, None => { return None; } };
        proof {
            if cond {
                crate::time::lemma_skip_piece(s@, p19 as int, decimal(gq.version as nat), profile_tail_magnet_uri(gq));
            }
        }
        let p21 = match expect_literal(s, p20, ",\"magnetUri\":") { Some(x) => x, None => { return None; } };
        proof {
            if cond {
                crate::time::lemma_skip_piece(s@, p20 as int, ",\"magnetUri\":"@, (json_opt_string(opt_view(&gq.magnet_uri)) + "}"@));
            }
        }
        let (magnet_uri, p22) = match parse_json_opt_string(s, p21) { Some(x) => x, None => { return None; } };
        proof {
            if cond {
                crate::time::lemma_skip_piece(s@, p21 as int, json_opt_string(opt_view(&gq.magnet_uri)), "}"@);
            }
        }
        proof {
            if cond {
                assert("}"@ + Seq::<char>::empty() =~= "}"@);
                assert(s@.skip(p22 as int) == "}"@ + Seq::<char>::empty());
            }
        }
        let p23 = match expect_literal(s, p22, "}") { Some(x) => x, None => { return None; } };
        proof {
            if cond {
                crate::time::lemma_skip_piece(s@, p22 as int, "}"@, Seq::<char>::empty());
            }
        }
    proof {
            let q = s@;
            lemma_join(q, pos as int, p15 as int, p16 as int);
            lemma_join(q, pos as int, p16 as int, p17 as int);
            lemma_join(q, pos as int, p17 as int, p18 as int);
            lemma_join(q, pos as int, p18 as int, p19 as int);
            lemma_join(q, pos as int, p19 as int, p20 as int);
            lemma_join(q, pos as int, p20 as int, p21 as int);
            lemma_join(q, pos as int, p21 as int, p22 as int);
            lemma_join(q, pos as int, p22 as int, p23 as int);
        if cond {
            assert(s@.skip(p23 as int).len() == 0);
            assert(s@.skip(p23 as int).len() == s@.len() - p23);
            assert forall|q: Profile| q.created_at.wf() && q.updated_at.wf() && #[trigger] profile_tail_created_at(q) == s@.skip(pos as int)
                implies created_at == q.created_at && updated_at == q.updated_at by {
                lemma_prefix_cancel(",\"createdAt\":\""@, q.created_at.rfc3339() + profile_tail_updated_at(q), gq.created_at.rfc3339() + profile_tail_updated_at(gq));
                lemma_rfc3339_unique(q.created_at, gq.created_at, profile_tail_updated_at(q), profile_tail_updated_at(gq));
                lemma_prefix_cancel("\",\"updatedAt\":\""@, q.updated_at.rfc3339() + profile_tail_version(q), gq.updated_at.rfc3339() + profile_tail_version(gq));
                lemma_rfc3339_unique(q.updated_at, gq.updated_at, profile_tail_version(q), profile_tail_version(gq));
            }
        }
    }
    Some((created_at, updated_at, version, magnet_uri, p23))
}

impl Profile {
    /// Everything but the fields that `update` changes is equal.
    pub open spec fn same_identity(&self, other: &Profile) -> bool {
        &&& self.id@ == other.id@
        &&& self.username@ == other.username@
        &&& opt_view(&self.avatar_hash) == opt_view(&other.avatar_hash)
        &&& self.public_key@ == other.public_key@
        &&& self.fingerprint@ == other.fingerprint@
        &&& self.created_at == other.created_at
        &&& opt_view(&self.magnet_uri) == opt_view(&other.magnet_uri)
    }

    /// A new profile for `username` under the given key: a fresh 36-character
    /// id, version 1, created and updated now, no optional fields.
    pub fn new(username: String, key_info: KeyInfo) -> (p: Profile)
        ensures
            p.id@.len() == 36,
            p.username@ == username@,
            p.display_name is None,
            p.bio is None,
            p.avatar_hash is None,
            p.public_key@ == key_info.public_key@,
            p.fingerprint@ == key_info.fingerprint@,
            p.created_at.wf(),
            p.updated_at == p.created_at,
            p.version == 1,
            p.magnet_uri is None,
    {
        let now = Timestamp::now();
        Profile {
            id: random_uuid(),
            username,
            display_name: None,
            bio: None,
            avatar_hash: None,
            public_key: key_info.public_key,
            fingerprint: key_info.fingerprint,
            created_at: now,
            updated_at: now,
            version: 1,
            magnet_uri: None,
        }
    }

    /// Applies the fields that are present, stamps the update with `now`, or
    /// with the instant right after the last update when `now` is not later,
    /// and bumps the version by one.
    pub fn update_at(&mut self, display_name: Option<String>, bio: Option<String>, now: Timestamp)
        requires
            old(self).version < u32::MAX,
        ensures
            final(self).same_identity(old(self)),
            final(self).id == old(self).id,
            final(self).username == old(self).username,
            final(self).avatar_hash == old(self).avatar_hash,
            final(self).public_key == old(self).public_key,
            final(self).fingerprint == old(self).fingerprint,
            final(self).magnet_uri == old(self).magnet_uri,
            display_name is None ==> final(self).display_name == old(self).display_name,
            bio is None ==> final(self).bio == old(self).bio,
            (opt_view(&final(self).display_name), opt_view(&final(self).bio), final(self).updated_at, final(self).version as int)
                == updated_profile(*old(self), opt_view(&display_name), opt_view(&bio), now),
            !old(self).updated_at.is_last() ==> final(self).updated_at.later_than(old(self).updated_at),
            old(self).updated_at.wf() && now.wf() ==> final(self).updated_at.wf(),
    {
        if let Some(name) = display_name {
            self.display_name = Some(name);
        }
        if let Some(text) = bio {
            self.bio = Some(text);
        }
        self.updated_at = self.updated_at.advance_to(now);
        self.version = self.version + 1;
    }

    /// `update_at` with the clock's current reading: the update time moves
    /// strictly forward even when the clock has not.
    pub fn update(&mut self, display_name: Option<String>, bio: Option<String>)
        requires
            old(self).version < u32::MAX,
        ensures
            final(self).same_identity(old(self)),
            final(self).id == old(self).id,
            final(self).username == old(self).username,
            final(self).avatar_hash == old(self).avatar_hash,
            final(self).public_key == old(self).public_key,
            final(self).fingerprint == old(self).fingerprint,
            final(self).magnet_uri == old(self).magnet_uri,
            display_name is None ==> final(self).display_name == old(self).display_name,
            bio is None ==> final(self).bio == old(self).bio,
            exists|now: Timestamp| now.wf()
                && (opt_view(&final(self).display_name), opt_view(&final(self).bio), final(self).updated_at, final(self).version as int)
                    == #[trigger] updated_profile(*old(self), opt_view(&display_name), opt_view(&bio), now),
            opt_view(&final(self).display_name) == (if display_name is Some { opt_view(&display_name) } else { opt_view(&old(self).display_name) }),
            opt_view(&final(self).bio) == (if bio is Some { opt_view(&bio) } else { opt_view(&old(self).bio) }),
            final(self).version == old(self).version + 1,
            !old(self).updated_at.is_last() ==> final(self).updated_at.later_than(old(self).updated_at),
            old(self).updated_at.wf() ==> final(self).updated_at.wf(),
    {
        let now = Timestamp::now();
        self.update_at(display_name, bio, now);
    }

    /// The canonical JSON text, which signatures and content addresses cover.
    pub fn to_canonical_json(&self) -> (r: String)
        ensures
            r@ == canonical_profile(*self),
    {
        let mut out = String::new();
        push_str(&mut out, "{\"id\":");
        push_json_string(&mut out, self.id.as_str());
        push_str(&mut out, ",\"username\":");
        push_json_string(&mut out, self.username.as_str());
        push_str(&mut out, ",\"displayName\":");
        push_json_opt_string(&mut out, &self.display_name);
        push_str(&mut out, ",\"bio\":");
        push_json_opt_string(&mut out, &self.bio);
        push_str(&mut out, ",\"avatarHash\":");
        push_json_opt_string(&mut out, &self.avatar_hash);
        push_str(&mut out, ",\"publicKey\":");
        push_json_string(&mut out, self.public_key.as_str());
        push_str(&mut out, ",\"fingerprint\":");
        push_json_string(&mut out, self.fingerprint.as_str());
        push_str(&mut out, ",\"createdAt\":\"");
        self.created_at.push_rfc3339(&mut out);
        push_str(&mut out, "\",\"updatedAt\":\"");
        self.updated_at.push_rfc3339(&mut out);
        push_str(&mut out, "\",\"version\":");
        push_decimal(&mut out, self.version);
        push_str(&mut out, ",\"magnetUri\":");
        push_json_opt_string(&mut out, &self.magnet_uri);
        push_str(&mut out, "}");
        proof {
            reveal(canonical_profile);
        }
        assert(out@ =~= canonical_profile(*self));
        out
    }

    /// Reads a profile back from its canonical JSON text. Whatever it
    /// returns has exactly `text` as its canonical form, with well-formed
    /// timestamps; and the canonical text of any profile with well-formed
    /// timestamps is read back. Text in any other shape gives `None`.
    #[verifier::rlimit(100)]
    #[verifier::spinoff_prover]
    pub fn from_canonical_json(text: &str) -> (r: Option<Profile>)
        ensures
            r matches Some(p) ==> canonical_profile(p) == text@ && p.created_at.wf() && p.updated_at.wf(),
            forall|q: Profile| q.created_at.wf() && q.updated_at.wf() && #[trigger] canonical_profile(q) == text@ ==> r is Some,
    {
        let s = chars_of(text);
        proof {
            assert(s@.skip(0) =~= s@);
            assert forall|q: Profile| q.created_at.wf() && q.updated_at.wf() && #[trigger] canonical_profile(q) == text@
                implies ("{\"id\":"@ + (json_string(q.id@) + profile_tail_username(q))) == s@.skip(0) by {
                lemma_canonical_profile_tails(q);
            }
        }
        let (id, username, display_name, bio, avatar_hash, public_key, fingerprint, p14) = match read_profile_identity(&s, 0) {
            Some(x) => x,
            None => {
                return None;
            },
        };
        let (created_at, updated_at, version, magnet_uri, end) = match read_profile_times(&s, p14) {
            Some(x) => x,
            None => {
                return None;
            },
        };
        if end != s.len() || !created_at.is_wf() || !updated_at.is_wf() {
            return None;
        }
        let p = Profile {
            id,
            username,
            display_name,
            bio,
            avatar_hash,
            public_key,
            fingerprint,
            created_at,
            updated_at,
            version,
            magnet_uri,
        };
        proof {
            lemma_join(s@, 0, p14 as int, end as int);
            assert(s@.subrange(0, end as int) =~= s@);
            reveal(canonical_profile);
            assert(canonical_profile(p) =~= s@);
        }
        Some(p)
    }

    /// The content address of the profile as it stands.
    pub fn generate_magnet_uri(&self) -> (r: String)
        ensures
            r@ == magnet_text(*self),
    {
        let json = self.to_canonical_json();
        let hash = sha256_hex(json.as_str());
        let mut out = String::new();
        push_str(&mut out, "magnet:?xt=urn:btih:");
        push_str(&mut out, hash.as_str());
        push_str(&mut out, "&dn=profile_");
        push_str(&mut out, self.username.as_str());
        proof {
            reveal(magnet_text);
        }
        assert(out@ =~= magnet_text(*self));
        out
    }

    /// A field-by-field copy.
    pub fn duplicate(&self) -> (r: Profile)
        ensures
            r == *self,
    {
        Profile {
            id: self.id.clone(),
            username: self.username.clone(),
            display_name: clone_opt_string(&self.display_name),
            bio: clone_opt_string(&self.bio),
            avatar_hash: clone_opt_string(&self.avatar_hash),
            public_key: self.public_key.clone(),
            fingerprint: self.fingerprint.clone(),
            created_at: self.created_at,
            updated_at: self.updated_at,
            version: self.version,
            magnet_uri: clone_opt_string(&self.magnet_uri),
        }
    }
}

impl SignedProfile {
    /// Whether the signature checks against the profile's canonical text under
    /// the profile's own public key.
    pub open spec fn valid(&self) -> bool {
        signature_valid(canonical_profile(self.profile), self.signature@, self.profile.public_key@)
    }

    /// Signs the canonical text of `profile` with `keypair`.
    pub fn create(profile: Profile, keypair: &KeyPair) -> (r: Result<SignedProfile, CoreError>)
        ensures
            match r {
                Ok(sp) => sp.profile == profile
                    && signing_outcome(keypair.secret_key@, canonical_profile(profile)) == Ok::<Seq<char>, CoreError>(sp.signature@),
                Err(e) => signing_outcome(keypair.secret_key@, canonical_profile(profile)) == Err::<Seq<char>, CoreError>(e),
            },
            r is Ok <==> secret_key_usable(keypair.secret_key@),
            keypair.wf() && profile.public_key@ == keypair.public_key@ ==> (r matches Ok(sp) && sp.valid()),
    {
        let json = profile.to_canonical_json();
        match keypair.sign(json.as_str()) {
            Ok(signature) => Ok(SignedProfile { profile, signature }),
            Err(e) => Err(e),
        }
    }

    /// Whether the signature checks against the profile's canonical text under
    /// the profile's own public key.
    pub fn verify(&self) -> (r: bool)
        ensures
            r == self.valid(),
    {
        let json = self.profile.to_canonical_json();
        verify_signature(json.as_str(), self.signature.as_str(), self.profile.public_key.as_str())
    }

    /// A field-by-field copy.
    pub fn duplicate(&self) -> (r: SignedProfile)
        ensures
            r == *self,
    {
        SignedProfile { profile: self.profile.duplicate(), signature: self.signature.clone() }
    }
}

} // verus!
