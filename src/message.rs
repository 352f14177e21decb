//! Direct and group messages and their signatures.

use vstd::prelude::*;
use crate::codec::{json_string, push_json_string, push_str};
use crate::crypto::{KeyPair, random_uuid, signature_valid, signing_outcome, secret_key_usable, verify_signature};
use crate::error::CoreError;
use crate::time::Timestamp;
use crate::parse::{chars_of, expect_literal, lemma_join, parse_json_string};
use crate::canon::{lemma_prefix_cancel, lemma_rfc3339_unique, lemma_string_unique};
use vstd::seq_lib::lemma_concat_associative;

verus! {

/// To whom a message goes.
#[derive(Debug)]
pub enum MessageType {
    Direct,
    Group { group_id: String },
}

/// A message from one fingerprint to another.
#[derive(Debug)]
pub struct Message {
    pub id: String,
    pub sender_fingerprint: String,
    pub recipient_fingerprint: String,
    pub content: String,
    pub created_at: Timestamp,
    /// Reserved; no encryption is performed and it is always `false`.
    pub encrypted: bool,
    pub message_type: MessageType,
}

/// A message with a signature over its canonical form.
#[derive(Debug)]
pub struct SignedMessage {
    pub message: Message,
    pub signature: String,
}

/// The canonical JSON of a message kind.
pub open spec fn canonical_kind(k: MessageType) -> Seq<char> {
    match k {
        MessageType::Direct => "{\"type\":\"direct\"}"@,
        MessageType::Group { group_id } => "{\"type\":\"group\",\"groupId\":"@ + json_string(group_id@) + "}"@,
    }
}

/// The JSON literal of a boolean.
pub open spec fn json_bool(b: bool) -> Seq<char> {
    if b { "true"@ } else { "false"@ }
}

/// The canonical JSON text of a message: every field, in this order.
#[verifier::opaque]
pub open spec fn canonical_message(m: Message) -> Seq<char> {
    "{\"id\":"@ + json_string(m.id@)
        + ",\"senderFingerprint\":"@ + json_string(m.sender_fingerprint@)
        + ",\"recipientFingerprint\":"@ + json_string(m.recipient_fingerprint@)
        + ",\"content\":"@ + json_string(m.content@)
        + ",\"createdAt\":\""@ + m.created_at.rfc3339()
        + "\",\"encrypted\":"@ + json_bool(m.encrypted)
        + ",\"kind\":"@ + canonical_kind(m.message_type)
        + "}"@
}

/// The canonical text of a message from its `senderFingerprint` key on.
pub open spec fn message_tail_sender(m: Message) -> Seq<char> {
    ",\"senderFingerprint\":"@ + (json_string(m.sender_fingerprint@) + message_tail_recipient(m))
}

/// The canonical text of a message from its `recipientFingerprint` key on.
pub open spec fn message_tail_recipient(m: Message) -> Seq<char> {
    ",\"recipientFingerprint\":"@ + (json_string(m.recipient_fingerprint@) + message_tail_content(m))
}

/// The canonical text of a message from its `content` key on.
pub open spec fn message_tail_content(m: Message) -> Seq<char> {
    ",\"content\":"@ + (json_string(m.content@) + message_tail_created_at(m))
}

/// The canonical text of a message from its `createdAt` key on.
pub open spec fn message_tail_created_at(m: Message) -> Seq<char> {
    ",\"createdAt\":\""@ + (m.created_at.rfc3339() + message_tail_encrypted(m))
}

/// The canonical text of a message from the end of `createdAt` on.
pub open spec fn message_tail_encrypted(m: Message) -> Seq<char> {
    "\",\"encrypted\":"@ + (json_bool(m.encrypted) + message_tail_kind(m))
}

/// The canonical text of a message from its `kind` key on.
pub open spec fn message_tail_kind(m: Message) -> Seq<char> {
    ",\"kind\":"@ + (canonical_kind(m.message_type) + "}"@)
}

proof fn lemma_canonical_message_right(m: Message)
    ensures
        canonical_message(m) == "{\"id\":"@ + (json_string(m.id@) + message_tail_sender(m)),
{
    let l0 = "{\"id\":"@;
    let l1 = l0 + json_string(m.id@);
    let l2 = l1 + ",\"senderFingerprint\":"@;
    let l3 = l2 + json_string(m.sender_fingerprint@);
    let l4 = l3 + ",\"recipientFingerprint\":"@;
    let l5 = l4 + json_string(m.recipient_fingerprint@);
    let l6 = l5 + ",\"content\":"@;
    let l7 = l6 + json_string(m.content@);
    let l8 = l7 + ",\"createdAt\":\""@;
    let l9 = l8 + m.created_at.rfc3339();
    let l10 = l9 + "\",\"encrypted\":"@;
    let l11 = l10 + json_bool(m.encrypted);
    let l12 = l11 + ",\"kind\":"@;
    let l13 = l12 + canonical_kind(m.message_type);
    let l14 = l13 + "}"@;
    let r14 = "}"@;
    let r13 = canonical_kind(m.message_type) + r14;
    let r12 = ",\"kind\":"@ + r13;
    let r11 = json_bool(m.encrypted) + r12;
    let r10 = "\",\"encrypted\":"@ + r11;
    let r9 = m.created_at.rfc3339() + r10;
    let r8 = ",\"createdAt\":\""@ + r9;
    let r7 = json_string(m.content@) + r8;
    let r6 = ",\"content\":"@ + r7;
    let r5 = json_string(m.recipient_fingerprint@) + r6;
    let r4 = ",\"recipientFingerprint\":"@ + r5;
    let r3 = json_string(m.sender_fingerprint@) + r4;
    let r2 = ",\"senderFingerprint\":"@ + r3;
    let r1 = json_string(m.id@) + r2;
    reveal(canonical_message);
    assert(canonical_message(m) == l14);
    lemma_concat_associative(l12, canonical_kind(m.message_type), r14);
    lemma_concat_associative(l11, ",\"kind\":"@, r13);
    lemma_concat_associative(l10, json_bool(m.encrypted), r12);
    lemma_concat_associative(l9, "\",\"encrypted\":"@, r11);
    lemma_concat_associative(l8, m.created_at.rfc3339(), r10);
    lemma_concat_associative(l7, ",\"createdAt\":\""@, r9);
    lemma_concat_associative(l6, json_string(m.content@), r8);
    lemma_concat_associative(l5, ",\"content\":"@, r7);
    lemma_concat_associative(l4, json_string(m.recipient_fingerprint@), r6);
    lemma_concat_associative(l3, ",\"recipientFingerprint\":"@, r5);
    lemma_concat_associative(l2, json_string(m.sender_fingerprint@), r4);
    lemma_concat_associative(l1, ",\"senderFingerprint\":"@, r3);
    lemma_concat_associative(l0, json_string(m.id@), r2);
}

/// Reads the id, fingerprints and content of a message's canonical text at
/// `pos`, up to the `createdAt` key.
fn read_message_head(s: &Vec<char>, pos: usize) -> (r: Option<(String, String, String, String, usize)>)
    requires
        pos <= s@.len(),
    ensures
        r matches Some((id, sender, recipient, content, e)) ==> pos <= e <= s@.len()
            && s@.subrange(pos as int, e as int) == "{\"id\":"@ + json_string(id@) + ",\"senderFingerprint\":"@ + json_string(sender@) + ",\"recipientFingerprint\":"@ + json_string(recipient@) + ",\"content\":"@ + json_string(content@),
        forall|m: Message| m.created_at.wf() && #[trigger] ("{\"id\":"@ + (json_string(m.id@) + message_tail_sender(m))) == s@.skip(pos as int)
            ==> (r matches Some((id, sender, recipient, content, e)) && s@.skip(e as int) == message_tail_created_at(m)),
{
    let ghost cond = exists|m: Message| m.created_at.wf() && #[trigger] ("{\"id\":"@ + (json_string(m.id@) + message_tail_sender(m))) == s@.skip(pos as int);
    let ghost mut gm: Message = arbitrary();
    proof {
        if cond {
            gm = choose|m: Message| m.created_at.wf() && #[trigger] ("{\"id\":"@ + (json_string(m.id@) + message_tail_sender(m))) == s@.skip(pos as int);
        }
    }
    let p1 = match expect_literal(s, pos, "{\"id\":") { Some(x) => x, None => { return None; } };
    proof {
        if cond {
            crate::time::lemma_skip_piece(s@, pos as int, "{\"id\":"@, (json_string(gm.id@) + message_tail_sender(gm)));
        }
    }
    let (id, p2) = match parse_json_string(s, p1) { Some(x) => x, None => { return None; } };
    proof {
        if cond {
            crate::time::lemma_skip_piece(s@, p1 as int, json_string(gm.id@), message_tail_sender(gm));
        }
    }
    let p3 = match expect_literal(s, p2, ",\"senderFingerprint\":") { Some(x) => x, None => { return None; } };
    proof {
        if cond {
            crate::time::lemma_skip_piece(s@, p2 as int, ",\"senderFingerprint\":"@, (json_string(gm.sender_fingerprint@) + message_tail_recipient(gm)));
        }
    }
    let (sender, p4) = match parse_json_string(s, p3) { Some(x) => x, None => { return None; } };
    proof {
        if cond {
            crate::time::lemma_skip_piece(s@, p3 as int, json_string(gm.sender_fingerprint@), message_tail_recipient(gm));
        }
    }
    let p5 = match expect_literal(s, p4, ",\"recipientFingerprint\":") { Some(x) => x, None => { return None; } };
    proof {
        if cond {
            crate::time::lemma_skip_piece(s@, p4 as int, ",\"recipientFingerprint\":"@, (json_string(gm.recipient_fingerprint@) + message_tail_content(gm)));
        }
    }
    let (recipient, p6) = match parse_json_string(s, p5) { Some(x) => x, None => { return None; } };
    proof {
        if cond {
            crate::time::lemma_skip_piece(s@, p5 as int, json_string(gm.recipient_fingerprint@), message_tail_content(gm));
        }
    }
    let p7 = match expect_literal(s, p6, ",\"content\":") { Some(x) => x, None => { return None; } };
    proof {
        if cond {
            crate::time::lemma_skip_piece(s@, p6 as int, ",\"content\":"@, (json_string(gm.content@) + message_tail_created_at(gm)));
        }
    }
    let (content, p8) = match parse_json_string(s, p7) { Some(x) => x, None => { return None; } };
    proof {
        if cond {
            crate::time::lemma_skip_piece(s@, p7 as int, json_string(gm.content@), message_tail_created_at(gm));
        }
    }
    proof {
        let q = s@;
        lemma_join(q, pos as int, p1 as int, p2 as int);
        lemma_join(q, pos as int, p2 as int, p3 as int);
        lemma_join(q, pos as int, p3 as int, p4 as int);
        lemma_join(q, pos as int, p4 as int, p5 as int);
        lemma_join(q, pos as int, p5 as int, p6 as int);
        lemma_join(q, pos as int, p6 as int, p7 as int);
        lemma_join(q, pos as int, p7 as int, p8 as int);
        if cond {
            assert forall|m: Message| m.created_at.wf() && #[trigger] ("{\"id\":"@ + (json_string(m.id@) + message_tail_sender(m))) == s@.skip(pos as int)
                implies s@.skip(p8 as int) == message_tail_created_at(m) by {
                lemma_prefix_cancel("{\"id\":"@, json_string(m.id@) + message_tail_sender(m), json_string(gm.id@) + message_tail_sender(gm));
                lemma_string_unique(m.id@, gm.id@, message_tail_sender(m), message_tail_sender(gm));
                lemma_prefix_cancel(",\"senderFingerprint\":"@, json_string(m.sender_fingerprint@) + message_tail_recipient(m), json_string(gm.sender_fingerprint@) + message_tail_recipient(gm));
                lemma_string_unique(m.sender_fingerprint@, gm.sender_fingerprint@, message_tail_recipient(m), message_tail_recipient(gm));
                lemma_prefix_cancel(",\"recipientFingerprint\":"@, json_string(m.recipient_fingerprint@) + message_tail_content(m), json_string(gm.recipient_fingerprint@) + message_tail_content(gm));
                lemma_string_unique(m.recipient_fingerprint@, gm.recipient_fingerprint@, message_tail_content(m), message_tail_content(gm));
                lemma_prefix_cancel(",\"content\":"@, json_string(m.content@) + message_tail_created_at(m), json_string(gm.content@) + message_tail_created_at(gm));
                lemma_string_unique(m.content@, gm.content@, message_tail_created_at(m), message_tail_created_at(gm));
            }
        }
    }
    Some((id, sender, recipient, content, p8))
}

/// Reads `true` or `false` at `pos`.
fn parse_json_bool(s: &Vec<char>, pos: usize) -> (r: Option<(bool, usize)>)
    requires
        pos <= s@.len(),
    ensures
        r matches Some((b, e)) ==> pos <= e <= s@.len() && s@.subrange(pos as int, e as int) == json_bool(b),
        forall|b: bool, rest: Seq<char>| #[trigger] (json_bool(b) + rest) == s@.skip(pos as int)
            ==> r == Some((b, (pos + json_bool(b).len()) as usize)),
{
    proof {
        reveal_strlit("true");
        reveal_strlit("false");
        assert forall|b: bool, rest: Seq<char>| #[trigger] (json_bool(b) + rest) == s@.skip(pos as int)
            implies pos < s@.len() && (s@[pos as int] == 't' <==> b) by {
            assert(s@.skip(pos as int).len() == s@.len() - pos);
            assert(s@.skip(pos as int)[0] == s@[pos as int]);
        }
    }
    if pos < s.len() && s[pos] == 't' {
        proof {
            assert forall|b: bool, rest: Seq<char>| #[trigger] (json_bool(b) + rest) == s@.skip(pos as int)
                implies ("true"@ + rest) == s@.skip(pos as int) by {
            }
        }
        match expect_literal(s, pos, "true") {
            Some(e) => Some((true, e)),
            None => None,
        }
    } else {
        proof {
            assert forall|b: bool, rest: Seq<char>| #[trigger] (json_bool(b) + rest) == s@.skip(pos as int)
                implies ("false"@ + rest) == s@.skip(pos as int) by {
            }
        }
        match expect_literal(s, pos, "false") {
            Some(e) => Some((false, e)),
            None => None,
        }
    }
}

/// Reads the kind object of a message at `pos`.
fn parse_kind(s: &Vec<char>, pos: usize) -> (r: Option<(MessageType, usize)>)
    requires
        pos <= s@.len(),
    ensures
        r matches Some((k, e)) ==> pos <= e <= s@.len() && s@.subrange(pos as int, e as int) == canonical_kind(k),
        forall|k: MessageType, rest: Seq<char>| #[trigger] (canonical_kind(k) + rest) == s@.skip(pos as int)
            ==> (r matches Some((k2, e)) && e == pos + canonical_kind(k).len()),
{
    let ghost direct = "{\"type\":\"direct\"}"@;
    let ghost group = "{\"type\":\"group\",\"groupId\":"@;
    proof {
        reveal_strlit("{\"type\":\"direct\"}");
        reveal_strlit("{\"type\":\"group\",\"groupId\":");
        reveal_strlit("}");
    }
    if s.len() - pos > 9 && s[pos + 9] == 'd' {
        proof {
            assert forall|k: MessageType, rest: Seq<char>| #[trigger] (canonical_kind(k) + rest) == s@.skip(pos as int)
                implies k is Direct && (direct + rest) == s@.skip(pos as int) by {
                assert(s@.skip(pos as int)[9] == s@[pos + 9]);
                if let MessageType::Group { group_id } = k {
                    assert((canonical_kind(k) + rest)[9] == 'g');
                }
            }
        }
        match expect_literal(s, pos, "{\"type\":\"direct\"}") {
            Some(e) => Some((MessageType::Direct, e)),
            None => None,
        }
    } else {
        proof {
            assert forall|k: MessageType, rest: Seq<char>| #[trigger] (canonical_kind(k) + rest) == s@.skip(pos as int)
                implies (k matches MessageType::Group { group_id }
                    && (group + (json_string(group_id@) + ("}"@ + rest))) == s@.skip(pos as int)) by {
                assert(s@.skip(pos as int).len() == s@.len() - pos);
                assert(s@.skip(pos as int)[9] == s@[pos + 9]);
                if let MessageType::Group { group_id } = k {
                    lemma_concat_associative(group + json_string(group_id@), "}"@, rest);
                    lemma_concat_associative(group, json_string(group_id@), "}"@ + rest);
                } else {
                    assert((canonical_kind(k) + rest)[9] == 'd');
                }
            }
        }
        let g1 = match expect_literal(s, pos, "{\"type\":\"group\",\"groupId\":") { Some(x) => x, None => { return None; } };
        let (group_id, g2) = match parse_json_string(s, g1) {
            Some(x) => x,
            None => {
                proof {
                    assert forall|k: MessageType, rest: Seq<char>| #[trigger] (canonical_kind(k) + rest) == s@.skip(pos as int)
                        implies false by {
                        if let MessageType::Group { group_id } = k {
                            crate::time::lemma_skip_piece(s@, pos as int, group, json_string(group_id@) + ("}"@ + rest));
                        }
                    }
                }
                return None;
            },
        };
        let g3 = match expect_literal(s, g2, "}") {
            Some(x) => x,
            None => {
                proof {
                    assert forall|k: MessageType, rest: Seq<char>| #[trigger] (canonical_kind(k) + rest) == s@.skip(pos as int)
                        implies false by {
                        if let MessageType::Group { group_id: gid } = k {
                            crate::time::lemma_skip_piece(s@, pos as int, group, json_string(gid@) + ("}"@ + rest));
                            crate::time::lemma_skip_piece(s@, g1 as int, json_string(gid@), "}"@ + rest);
                        }
                    }
                }
                return None;
            },
        };
        proof {
            lemma_join(s@, pos as int, g1 as int, g2 as int);
            lemma_join(s@, pos as int, g2 as int, g3 as int);
            assert forall|k: MessageType, rest: Seq<char>| #[trigger] (canonical_kind(k) + rest) == s@.skip(pos as int)
                implies g3 == pos + canonical_kind(k).len() by {
                if let MessageType::Group { group_id: gid } = k {
                    crate::time::lemma_skip_piece(s@, pos as int, group, json_string(gid@) + ("}"@ + rest));
                    crate::time::lemma_skip_piece(s@, g1 as int, json_string(gid@), "}"@ + rest);
                }
            }
        }
        Some((MessageType::Group { group_id }, g3))
    }
}

/// Reads the rest of a message's canonical text at `pos`, from the
/// `createdAt` key to the closing brace.
#[verifier::rlimit(100)]
#[verifier::spinoff_prover]
fn read_message_rest(s: &Vec<char>, pos: usize) -> (r: Option<(Timestamp, bool, MessageType, usize)>)
    requires
        pos <= s@.len(),
    ensures
        r matches Some((created_at, encrypted, kind, e)) ==> pos <= e <= s@.len()
            && s@.subrange(pos as int, e as int) == ",\"createdAt\":\""@ + created_at.rfc3339() + "\",\"encrypted\":"@
                + json_bool(encrypted) + ",\"kind\":"@ + canonical_kind(kind) + "}"@,
        forall|m: Message| m.created_at.wf() && #[trigger] message_tail_created_at(m) == s@.skip(pos as int)
            ==> (r matches Some((created_at, encrypted, kind, e)) && created_at == m.created_at && e == s@.len()),
{
    let ghost cond = exists|m: Message| m.created_at.wf() && #[trigger] message_tail_created_at(m) == s@.skip(pos as int);
    let ghost mut gm: Message = arbitrary();
    proof {
        if cond {
            gm = choose|m: Message| m.created_at.wf() && #[trigger] message_tail_created_at(m) == s@.skip(pos as int);
        }
    }
    let p1 = match expect_literal(s, pos, ",\"createdAt\":\"") { Some(x) => x, None => { return None; } };
    proof {
        if cond {
            crate::time::lemma_skip_piece(s@, pos as int, ",\"createdAt\":\""@, (gm.created_at.rfc3339() + message_tail_encrypted(gm)));
        }
    }
    let (created_at, p2) = match Timestamp::parse_rfc3339(s, p1) { Some(x) => x, None => { return None; } };
    proof {
        if cond {
            crate::time::lemma_skip_piece(s@, p1 as int, gm.created_at.rfc3339(), message_tail_encrypted(gm));
        }
    }
    let p3 = match expect_literal(s, p2, "\",\"encrypted\":") { Some(x) => x, None => { return None; } };
    proof {
        if cond {
            crate::time::lemma_skip_piece(s@, p2 as int, "\",\"encrypted\":"@, (json_bool(gm.encrypted) + message_tail_kind(gm)));
        }
    }
    let (encrypted, p4) = match parse_json_bool(s, p3) { Some(x) => x, None => { return None; } };
    proof {
        if cond {
            crate::time::lemma_skip_piece(s@, p3 as int, json_bool(gm.encrypted), message_tail_kind(gm));
        }
    }
    let p5 = match expect_literal(s, p4, ",\"kind\":") { Some(x) => x, None => { return None; } };
    proof {
        if cond {
            crate::time::lemma_skip_piece(s@, p4 as int, ",\"kind\":"@, (canonical_kind(gm.message_type) + "}"@));
        }
    }
    let (kind, p6) = match parse_kind(s, p5) { Some(x) => x, None => { return None; } };
    proof {
        if cond {
            crate::time::lemma_skip_piece(s@, p5 as int, canonical_kind(gm.message_type), "}"@);
            assert("}"@ + Seq::<char>::empty() =~= "}"@);
            assert(s@.skip(p6 as int) == "}"@ + Seq::<char>::empty());
        }
    }
    let p7 = match expect_literal(s, p6, "}") { Some(x) => x, None => { return None; } };
    proof {
        let q = s@;
        assert(q.subrange(p3 as int, p4 as int) == json_bool(encrypted));
        assert(q.subrange(p5 as int, p6 as int) == canonical_kind(kind));
        lemma_join(q, pos as int, p1 as int, p2 as int);
        lemma_join(q, pos as int, p2 as int, p3 as int);
        lemma_join(q, pos as int, p3 as int, p4 as int);
        lemma_join(q, pos as int, p4 as int, p5 as int);
        lemma_join(q, pos as int, p5 as int, p6 as int);
        lemma_join(q, pos as int, p6 as int, p7 as int);
        if cond {
            crate::time::lemma_skip_piece(s@, p6 as int, "}"@, Seq::<char>::empty());
            assert(s@.skip(p7 as int).len() == s@.len() - p7);
            assert forall|m: Message| m.created_at.wf() && #[trigger] message_tail_created_at(m) == s@.skip(pos as int)
                implies created_at == m.created_at by {
                lemma_prefix_cancel(",\"createdAt\":\""@, m.created_at.rfc3339() + message_tail_encrypted(m), gm.created_at.rfc3339() + message_tail_encrypted(gm));
                lemma_rfc3339_unique(m.created_at, gm.created_at, message_tail_encrypted(m), message_tail_encrypted(gm));
            }
        }
    }
    Some((created_at, encrypted, kind, p7))
}

impl Message {
    /// A new direct message with a fresh 36-character id, created now.
    pub fn new_direct(sender_fingerprint: String, recipient_fingerprint: String, content: String) -> (m: Message)
        ensures
            m.id@.len() == 36,
            m.sender_fingerprint == sender_fingerprint,
            m.recipient_fingerprint == recipient_fingerprint,
            m.content == content,
            m.created_at.wf(),
            !m.encrypted,
            m.message_type is Direct,
    {
        Message {
            id: random_uuid(),
            sender_fingerprint,
            recipient_fingerprint,
            content,
            created_at: Timestamp::now(),
            encrypted: false,
            message_type: MessageType::Direct,
        }
    }

    /// A new group message with a fresh 36-character id, created now.
    pub fn new_group(sender_fingerprint: String, recipient_fingerprint: String, group_id: String, content: String) -> (m: Message)
        ensures
            m.id@.len() == 36,
            m.sender_fingerprint == sender_fingerprint,
            m.recipient_fingerprint == recipient_fingerprint,
            m.content == content,
            m.created_at.wf(),
            !m.encrypted,
            m.message_type == (MessageType::Group { group_id }),
    {
        Message {
            id: random_uuid(),
            sender_fingerprint,
            recipient_fingerprint,
            content,
            created_at: Timestamp::now(),
            encrypted: false,
            message_type: MessageType::Group { group_id },
        }
    }

    /// Reads a message back from its canonical JSON text. Whatever it returns
    /// has exactly `text` as its canonical form, with a well-formed
    /// timestamp; and the canonical text of any message with a well-formed
    /// timestamp is read back.
    pub fn from_canonical_json(text: &str) -> (r: Option<Message>)
        ensures
            r matches Some(m) ==> canonical_message(m) == text@ && m.created_at.wf(),
            forall|m: Message| m.created_at.wf() && #[trigger] canonical_message(m) == text@ ==> r is Some,
    {
        let s = chars_of(text);
        proof {
            assert(s@.skip(0) =~= s@);
            assert forall|m: Message| m.created_at.wf() && #[trigger] canonical_message(m) == text@
                implies ("{\"id\":"@ + (json_string(m.id@) + message_tail_sender(m))) == s@.skip(0) by {
                lemma_canonical_message_right(m);
            }
        }
        let (id, sender_fingerprint, recipient_fingerprint, content, p8) = match read_message_head(&s, 0) {
            Some(x) => x,
            None => {
                return None;
            },
        };
        let (created_at, encrypted, message_type, end) = match read_message_rest(&s, p8) {
            Some(x) => x,
            None => {
                return None;
            },
        };
        if end != s.len() || !created_at.is_wf() {
            return None;
        }
        let m = Message { id, sender_fingerprint, recipient_fingerprint, content, created_at, encrypted, message_type };
        proof {
            lemma_join(s@, 0, p8 as int, end as int);
            assert(s@.subrange(0, end as int) =~= s@);
            reveal(canonical_message);
            assert(canonical_message(m) =~= s@);
        }
        Some(m)
    }

    /// The canonical JSON text, which signatures cover.
    pub fn to_canonical_json(&self) -> (r: String)
        ensures
            r@ == canonical_message(*self),
    {
        let mut out = String::new();
        push_str(&mut out, "{\"id\":");
        push_json_string(&mut out, self.id.as_str());
        push_str(&mut out, ",\"senderFingerprint\":");
        push_json_string(&mut out, self.sender_fingerprint.as_str());
        push_str(&mut out, ",\"recipientFingerprint\":");
        push_json_string(&mut out, self.recipient_fingerprint.as_str());
        push_str(&mut out, ",\"content\":");
        push_json_string(&mut out, self.content.as_str());
        push_str(&mut out, ",\"createdAt\":\"");
        self.created_at.push_rfc3339(&mut out);
        push_str(&mut out, "\",\"encrypted\":");
        if self.encrypted {
            push_str(&mut out, "true");
        } else {
            push_str(&mut out, "false");
        }
        push_str(&mut out, ",\"kind\":");
        match &self.message_type {
            MessageType::Direct => push_str(&mut out, "{\"type\":\"direct\"}"),
            MessageType::Group { group_id } => {
                push_str(&mut out, "{\"type\":\"group\",\"groupId\":");
                push_json_string(&mut out, group_id.as_str());
                push_str(&mut out, "}");
            },
        }
        push_str(&mut out, "}");
        proof {
            reveal(canonical_message);
        }
        assert(out@ =~= canonical_message(*self));
        out
    }
}

impl SignedMessage {
    /// Whether the signature checks against the message's canonical text
    /// under `public_key`.
    pub open spec fn valid_under(&self, public_key: Seq<char>) -> bool {
        signature_valid(canonical_message(self.message), self.signature@, public_key)
    }

    /// Signs the canonical text of `message` with `keypair`.
    pub fn create(message: Message, keypair: &KeyPair) -> (r: Result<SignedMessage, CoreError>)
        ensures
            match r {
                Ok(sm) => sm.message == message
                    && signing_outcome(keypair.secret_key@, canonical_message(message)) == Ok::<Seq<char>, CoreError>(sm.signature@),
                Err(e) => signing_outcome(keypair.secret_key@, canonical_message(message)) == Err::<Seq<char>, CoreError>(e),
            },
            r is Ok <==> secret_key_usable(keypair.secret_key@),
            keypair.wf() ==> (r matches Ok(sm) && sm.valid_under(keypair.public_key@)),
    {
        let json = message.to_canonical_json();
        match keypair.sign(json.as_str()) {
            Ok(signature) => Ok(SignedMessage { message, signature }),
            Err(e) => Err(e),
        }
    }

    /// Whether the signature checks against the message's canonical text
    /// under `public_key` (base64).
    pub fn verify(&self, public_key: &str) -> (r: bool)
        ensures
            r == self.valid_under(public_key@),
    {
        let json = self.message.to_canonical_json();
        verify_signature(json.as_str(), self.signature.as_str(), public_key)
    }
}

} // verus!
