//! Posts, their append-only attachment list, and their signatures.

use vstd::prelude::*;
use crate::codec::{clone_opt_string, clone_strings, json_opt_string, json_string, json_string_array, opt_view, push_json_opt_string, push_json_string, push_json_string_array, push_str, strings_view};
use crate::crypto::{KeyPair, random_uuid, signature_valid, signing_outcome, secret_key_usable, verify_signature};
use crate::error::CoreError;
use crate::time::Timestamp;
use crate::parse::{chars_of, expect_literal, lemma_array_unique, lemma_join, parse_json_opt_string, parse_json_string, parse_json_string_array};
use crate::canon::{lemma_prefix_cancel, lemma_rfc3339_unique, lemma_string_unique};
use vstd::seq_lib::lemma_concat_associative;

verus! {

/// A post by the holder of a fingerprint.
#[derive(Debug)]
pub struct Post {
    pub id: String,
    pub author_fingerprint: String,
    pub content: String,
    pub tags: Vec<String>,
    pub created_at: Timestamp,
    pub reply_to: Option<String>,
    pub attachment_hashes: Vec<String>,
}

/// A post with a signature over its canonical form.
#[derive(Debug)]
pub struct SignedPost {
    pub post: Post,
    pub signature: String,
}

/// The canonical JSON text of a post: every field, in this order, absent
/// values as `null`.
#[verifier::opaque]
pub open spec fn canonical_post(p: Post) -> Seq<char> {
    "{\"id\":"@ + json_string(p.id@)
        + ",\"authorFingerprint\":"@ + json_string(p.author_fingerprint@)
        + ",\"content\":"@ + json_string(p.content@)
        + ",\"tags\":"@ + json_string_array(strings_view(p.tags@))
        + ",\"createdAt\":\""@ + p.created_at.rfc3339()
        + "\",\"replyTo\":"@ + json_opt_string(opt_view(&p.reply_to))
        + ",\"attachmentHashes\":"@ + json_string_array(strings_view(p.attachment_hashes@))
        + "}"@
}

/// The canonical text of a post from its `authorFingerprint` key on.
pub open spec fn post_tail_author(p: Post) -> Seq<char> {
    ",\"authorFingerprint\":"@ + (json_string(p.author_fingerprint@) + post_tail_content(p))
}

/// The canonical text of a post from its `content` key on.
pub open spec fn post_tail_content(p: Post) -> Seq<char> {
    ",\"content\":"@ + (json_string(p.content@) + post_tail_tags(p))
}

/// The canonical text of a post from its `tags` key on.
pub open spec fn post_tail_tags(p: Post) -> Seq<char> {
    ",\"tags\":"@ + (json_string_array(strings_view(p.tags@)) + post_tail_created_at(p))
}

/// The canonical text of a post from its `createdAt` key on.
pub open spec fn post_tail_created_at(p: Post) -> Seq<char> {
    ",\"createdAt\":\""@ + (p.created_at.rfc3339() + post_tail_reply_to(p))
}

/// The canonical text of a post from the end of `createdAt` on.
pub open spec fn post_tail_reply_to(p: Post) -> Seq<char> {
    "\",\"replyTo\":"@ + (json_opt_string(opt_view(&p.reply_to)) + post_tail_attachments(p))
}

/// The canonical text of a post from its `attachmentHashes` key on.
pub open spec fn post_tail_attachments(p: Post) -> Seq<char> {
    ",\"attachmentHashes\":"@ + (json_string_array(strings_view(p.attachment_hashes@)) + "}"@)
}

proof fn lemma_canonical_post_right(p: Post)
    ensures
        canonical_post(p) == "{\"id\":"@ + (json_string(p.id@) + post_tail_author(p)),
{
    let l0 = "{\"id\":"@;
    let l1 = l0 + json_string(p.id@);
    let l2 = l1 + ",\"authorFingerprint\":"@;
    let l3 = l2 + json_string(p.author_fingerprint@);
    let l4 = l3 + ",\"content\":"@;
    let l5 = l4 + json_string(p.content@);
    let l6 = l5 + ",\"tags\":"@;
    let l7 = l6 + json_string_array(strings_view(p.tags@));
    let l8 = l7 + ",\"createdAt\":\""@;
    let l9 = l8 + p.created_at.rfc3339();
    let l10 = l9 + "\",\"replyTo\":"@;
    let l11 = l10 + json_opt_string(opt_view(&p.reply_to));
    let l12 = l11 + ",\"attachmentHashes\":"@;
    let l13 = l12 + json_string_array(strings_view(p.attachment_hashes@));
    let l14 = l13 + "}"@;
    let r14 = "}"@;
    let r13 = json_string_array(strings_view(p.attachment_hashes@)) + r14;
    let r12 = ",\"attachmentHashes\":"@ + r13;
    let r11 = json_opt_string(opt_view(&p.reply_to)) + r12;
    let r10 = "\",\"replyTo\":"@ + r11;
    let r9 = p.created_at.rfc3339() + r10;
    let r8 = ",\"createdAt\":\""@ + r9;
    let r7 = json_string_array(strings_view(p.tags@)) + r8;
    let r6 = ",\"tags\":"@ + r7;
    let r5 = json_string(p.content@) + r6;
    let r4 = ",\"content\":"@ + r5;
    let r3 = json_string(p.author_fingerprint@) + r4;
    let r2 = ",\"authorFingerprint\":"@ + r3;
    let r1 = json_string(p.id@) + r2;
    reveal(canonical_post);
    assert(canonical_post(p) == l14);
    lemma_concat_associative(l12, json_string_array(strings_view(p.attachment_hashes@)), r14);
    lemma_concat_associative(l11, ",\"attachmentHashes\":"@, r13);
    lemma_concat_associative(l10, json_opt_string(opt_view(&p.reply_to)), r12);
    lemma_concat_associative(l9, "\",\"replyTo\":"@, r11);
    lemma_concat_associative(l8, p.created_at.rfc3339(), r10);
    lemma_concat_associative(l7, ",\"createdAt\":\""@, r9);
    lemma_concat_associative(l6, json_string_array(strings_view(p.tags@)), r8);
    lemma_concat_associative(l5, ",\"tags\":"@, r7);
    lemma_concat_associative(l4, json_string(p.content@), r6);
    lemma_concat_associative(l3, ",\"content\":"@, r5);
    lemma_concat_associative(l2, json_string(p.author_fingerprint@), r4);
    lemma_concat_associative(l1, ",\"authorFingerprint\":"@, r3);
    lemma_concat_associative(l0, json_string(p.id@), r2);
}

/// Reads the id, author, content and tags of a post's canonical text at
/// `pos`, up to the `createdAt` key.
fn read_post_head(s: &Vec<char>, pos: usize) -> (r: Option<(String, String, String, Vec<String>, usize)>)
    requires
        pos <= s@.len(),
    ensures
        r matches Some((id, author, content, tags, e)) ==> pos <= e <= s@.len()
            && s@.subrange(pos as int, e as int) == "{\"id\":"@ + json_string(id@) + ",\"authorFingerprint\":"@ + json_string(author@) + ",\"content\":"@ + json_string(content@) + ",\"tags\":"@ + json_string_array(strings_view(tags@)),
        forall|q: Post| q.created_at.wf() && #[trigger] ("{\"id\":"@ + (json_string(q.id@) + post_tail_author(q))) == s@.skip(pos as int)
            ==> (r matches Some((id, author, content, tags, e)) && s@.skip(e as int) == post_tail_created_at(q)),
{
    let ghost cond = exists|q: Post| q.created_at.wf() && #[trigger] ("{\"id\":"@ + (json_string(q.id@) + post_tail_author(q))) == s@.skip(pos as int);
    let ghost mut gq: Post = arbitrary();
    proof {
        if cond {
            gq = choose|q: Post| q.created_at.wf() && #[trigger] ("{\"id\":"@ + (json_string(q.id@) + post_tail_author(q))) == s@.skip(pos as int);
        }
    }
    let p1 = match expect_literal(s, pos, "{\"id\":") { Some(x) => x, None => { return None; } };
    proof {
        if cond {
            crate::time::lemma_skip_piece(s@, pos as int, "{\"id\":"@, (json_string(gq.id@) + post_tail_author(gq)));
        }
    }
    let (id, p2) = match parse_json_string(s, p1) { Some(x) => x, None => { return None; } };
    proof {
        if cond {
            crate::time::lemma_skip_piece(s@, p1 as int, json_string(gq.id@), post_tail_author(gq));
        }
    }
    let p3 = match expect_literal(s, p2, ",\"authorFingerprint\":") { Some(x) => x, None => { return None; } };
    proof {
        if cond {
            crate::time::lemma_skip_piece(s@, p2 as int, ",\"authorFingerprint\":"@, (json_string(gq.author_fingerprint@) + post_tail_content(gq)));
        }
    }
    let (author, p4) = match parse_json_string(s, p3) { Some(x) => x, None => { return None; } };
    proof {
        if cond {
            crate::time::lemma_skip_piece(s@, p3 as int, json_string(gq.author_fingerprint@), post_tail_content(gq));
        }
    }
    let p5 = match expect_literal(s, p4, ",\"content\":") { Some(x) => x, None => { return None; } };
    proof {
        if cond {
            crate::time::lemma_skip_piece(s@, p4 as int, ",\"content\":"@, (json_string(gq.content@) + post_tail_tags(gq)));
        }
    }
    let (content, p6) = match parse_json_string(s, p5) { Some(x) => x, None => { return None; } };
    proof {
        if cond {
            crate::time::lemma_skip_piece(s@, p5 as int, json_string(gq.content@), post_tail_tags(gq));
        }
    }
    let p7 = match expect_literal(s, p6, ",\"tags\":") { Some(x) => x, None => { return None; } };
    proof {
        if cond {
            crate::time::lemma_skip_piece(s@, p6 as int, ",\"tags\":"@, (json_string_array(strings_view(gq.tags@)) + post_tail_created_at(gq)));
        }
    }
    let (tags, p8) = match parse_json_string_array(s, p7) { Some(x) => x, None => { return None; } };
    proof {
        if cond {
            crate::time::lemma_skip_piece(s@, p7 as int, json_string_array(strings_view(gq.tags@)), post_tail_created_at(gq));
        }
    }
    proof {
        let q = s@;
        lemma_join(q, pos as int, p1 as int, p2 as int);
        lemma_join(q, pos as int, p2 as int, p3 as int);
        lemma_join(q, pos as int, p3 as int, p4 as int);
        lemma_join(q, pos as int, p4 as int, p5 as int);
        lemma_join(q, pos as int, p5 as int, p6 as int);
        lemma_join(q, pos as int, p6 as int, p7 as int);
        lemma_join(q, pos as int, p7 as int, p8 as int);
        if cond {
            assert forall|q: Post| q.created_at.wf() && #[trigger] ("{\"id\":"@ + (json_string(q.id@) + post_tail_author(q))) == s@.skip(pos as int)
                implies s@.skip(p8 as int) == post_tail_created_at(q) by {
                lemma_prefix_cancel("{\"id\":"@, json_string(q.id@) + post_tail_author(q), json_string(gq.id@) + post_tail_author(gq));
                lemma_string_unique(q.id@, gq.id@, post_tail_author(q), post_tail_author(gq));
                lemma_prefix_cancel(",\"authorFingerprint\":"@, json_string(q.author_fingerprint@) + post_tail_content(q), json_string(gq.author_fingerprint@) + post_tail_content(gq));
                lemma_string_unique(q.author_fingerprint@, gq.author_fingerprint@, post_tail_content(q), post_tail_content(gq));
                lemma_prefix_cancel(",\"content\":"@, json_string(q.content@) + post_tail_tags(q), json_string(gq.content@) + post_tail_tags(gq));
                lemma_string_unique(q.content@, gq.content@, post_tail_tags(q), post_tail_tags(gq));
                lemma_prefix_cancel(",\"tags\":"@, json_string_array(strings_view(q.tags@)) + post_tail_created_at(q), json_string_array(strings_view(gq.tags@)) + post_tail_created_at(gq));
                lemma_array_unique(strings_view(q.tags@), strings_view(gq.tags@), post_tail_created_at(q), post_tail_created_at(gq));
            }
        }
    }
    Some((id, author, content, tags, p8))
}

/// Reads the rest of a post's canonical text at `pos`, from the
/// `createdAt` key to the closing brace.
#[verifier::rlimit(100)]
#[verifier::spinoff_prover]
fn read_post_rest(s: &Vec<char>, pos: usize) -> (r: Option<(Timestamp, Option<String>, Vec<String>, usize)>)
    requires
        pos <= s@.len(),
    ensures
        r matches Some((created_at, reply_to, attachments, e)) ==> pos <= e <= s@.len()
            && s@.subrange(pos as int, e as int) == ",\"createdAt\":\""@ + created_at.rfc3339() + "\",\"replyTo\":"@
                + json_opt_string(opt_view(&reply_to)) + ",\"attachmentHashes\":"@ + json_string_array(strings_view(attachments@)) + "}"@,
        forall|q: Post| q.created_at.wf() && #[trigger] post_tail_created_at(q) == s@.skip(pos as int)
            ==> (r matches Some((created_at, reply_to, attachments, e)) && created_at == q.created_at && e == s@.len()),
{
    let ghost cond = exists|q: Post| q.created_at.wf() && #[trigger] post_tail_created_at(q) == s@.skip(pos as int);
    let ghost mut gq: Post = arbitrary();
    proof {
        if cond {
            gq = choose|q: Post| q.created_at.wf() && #[trigger] post_tail_created_at(q) == s@.skip(pos as int);
        }
    }
    let p1 = match expect_literal(s, pos, ",\"createdAt\":\"") { Some(x) => x, None => { return None; } };
    proof {
        if cond {
            crate::time::lemma_skip_piece(s@, pos as int, ",\"createdAt\":\""@, (gq.created_at.rfc3339() + post_tail_reply_to(gq)));
        }
    }
    let (created_at, p2) = match Timestamp::parse_rfc3339(s, p1) { Some(x) => x, None => { return None; } };
    proof {
        if cond {
            crate::time::lemma_skip_piece(s@, p1 as int, gq.created_at.rfc3339(), post_tail_reply_to(gq));
        }
    }
    let p3 = match expect_literal(s, p2, "\",\"replyTo\":") { Some(x) => x, None => { return None; } };
    proof {
        if cond {
            crate::time::lemma_skip_piece(s@, p2 as int, "\",\"replyTo\":"@, (json_opt_string(opt_view(&gq.reply_to)) + post_tail_attachments(gq)));
        }
    }
    let (reply_to, p4) = match parse_json_opt_string(s, p3) { Some(x) => x, None => { return None; } };
    proof {
        if cond {
            crate::time::lemma_skip_piece(s@, p3 as int, json_opt_string(opt_view(&gq.reply_to)), post_tail_attachments(gq));
        }
    }
    let p5 = match expect_literal(s, p4, ",\"attachmentHashes\":") { Some(x) => x, None => { return None; } };
    proof {
        if cond {
            crate::time::lemma_skip_piece(s@, p4 as int, ",\"attachmentHashes\":"@, (json_string_array(strings_view(gq.attachment_hashes@)) + "}"@));
        }
    }
    let (attachments, p6) = match parse_json_string_array(s, p5) { Some(x) => x, None => { return None; } };
    proof {
        if cond {
            crate::time::lemma_skip_piece(s@, p5 as int, json_string_array(strings_view(gq.attachment_hashes@)), "}"@);
        }
    }
    proof {
        if cond {
            assert("}"@ + Seq::<char>::empty() =~= "}"@);
            assert(s@.skip(p6 as int) == "}"@ + Seq::<char>::empty());
        }
    }
    let p7 = match expect_literal(s, p6, "}") { Some(x) => x, None => { return None; } };
    proof {
        let q = s@;
        lemma_join(q, pos as int, p1 as int, p2 as int);
        lemma_join(q, pos as int, p2 as int, p3 as int);
        lemma_join(q, pos as int, p3 as int, p4 as int);
        lemma_join(q, pos as int, p4 as int, p5 as int);
        lemma_join(q, pos as int, p5 as int, p6 as int);
        lemma_join(q, pos as int, p6 as int, p7 as int);
        if cond {
            crate::time::lemma_skip_piece(s@, p6 as int, "}"@, Seq::<char>::empty());
            assert(s@.skip(p7 as int).len() == s@.len() - p7);
            assert forall|q: Post| q.created_at.wf() && #[trigger] post_tail_created_at(q) == s@.skip(pos as int)
                implies created_at == q.created_at by {
                lemma_prefix_cancel(",\"createdAt\":\""@, q.created_at.rfc3339() + post_tail_reply_to(q), gq.created_at.rfc3339() + post_tail_reply_to(gq));
                lemma_rfc3339_unique(q.created_at, gq.created_at, post_tail_reply_to(q), post_tail_reply_to(gq));
            }
        }
    }
    Some((created_at, reply_to, attachments, p7))
}

impl Post {
    /// A new post with a fresh 36-character id, created now, tags as given
    /// (none when absent) and no attachments.
    pub fn new(author_fingerprint: String, content: String, tags: Option<Vec<String>>, reply_to: Option<String>) -> (p: Post)
        ensures
            p.id@.len() == 36,
            p.author_fingerprint@ == author_fingerprint@,
            p.content@ == content@,
            p.tags@ == match tags { Some(t) => t@, None => Seq::<String>::empty() },
            p.created_at.wf(),
            p.reply_to == reply_to,
            p.attachment_hashes@.len() == 0,
    {
        let tags = match tags {
            Some(t) => t,
            None => Vec::new(),
        };
        Post {
            id: random_uuid(),
            author_fingerprint,
            content,
            tags,
            created_at: Timestamp::now(),
            reply_to,
            attachment_hashes: Vec::new(),
        }
    }

    /// The canonical JSON text, which signatures cover.
    pub fn to_canonical_json(&self) -> (r: String)
        ensures
            r@ == canonical_post(*self),
    {
        let mut out = String::new();
        push_str(&mut out, "{\"id\":");
        push_json_string(&mut out, self.id.as_str());
        push_str(&mut out, ",\"authorFingerprint\":");
        push_json_string(&mut out, self.author_fingerprint.as_str());
        push_str(&mut out, ",\"content\":");
        push_json_string(&mut out, self.content.as_str());
        push_str(&mut out, ",\"tags\":");
        push_json_string_array(&mut out, &self.tags);
        push_str(&mut out, ",\"createdAt\":\"");
        self.created_at.push_rfc3339(&mut out);
        push_str(&mut out, "\",\"replyTo\":");
        push_json_opt_string(&mut out, &self.reply_to);
        push_str(&mut out, ",\"attachmentHashes\":");
        push_json_string_array(&mut out, &self.attachment_hashes);
        push_str(&mut out, "}");
        proof {
            reveal(canonical_post);
        }
        assert(out@ =~= canonical_post(*self));
        out
    }

    /// Reads a post back from its canonical JSON text. Whatever it returns
    /// has exactly `text` as its canonical form, with a well-formed
    /// timestamp; and the canonical text of any post with a well-formed
    /// timestamp is read back.
    pub fn from_canonical_json(text: &str) -> (r: Option<Post>)
        ensures
            r matches Some(p) ==> canonical_post(p) == text@ && p.created_at.wf(),
            forall|q: Post| q.created_at.wf() && #[trigger] canonical_post(q) == text@ ==> r is Some,
    {
        let s = chars_of(text);
        proof {
            assert(s@.skip(0) =~= s@);
            assert forall|q: Post| q.created_at.wf() && #[trigger] canonical_post(q) == text@
                implies ("{\"id\":"@ + (json_string(q.id@) + post_tail_author(q))) == s@.skip(0) by {
                lemma_canonical_post_right(q);
            }
        }
        let (id, author_fingerprint, content, tags, p8) = match read_post_head(&s, 0) {
            Some(x) => x,
            None => {
                return None;
            },
        };
        let (created_at, reply_to, attachment_hashes, end) = match read_post_rest(&s, p8) {
            Some(x) => x,
            None => {
                return None;
            },
        };
        if end != s.len() || !created_at.is_wf() {
            return None;
        }
        let p = Post { id, author_fingerprint, content, tags, created_at, reply_to, attachment_hashes };
        proof {
            lemma_join(s@, 0, p8 as int, end as int);
            assert(s@.subrange(0, end as int) =~= s@);
            reveal(canonical_post);
            assert(canonical_post(p) =~= s@);
        }
        Some(p)
    }

    /// Appends an attachment hash; order is kept and nothing is merged.
    pub fn add_attachment(&mut self, hash: String)
        ensures
            final(self).attachment_hashes@ == old(self).attachment_hashes@.push(hash),
            final(self).id == old(self).id,
            final(self).author_fingerprint == old(self).author_fingerprint,
            final(self).content == old(self).content,
            final(self).tags == old(self).tags,
            final(self).created_at == old(self).created_at,
            final(self).reply_to == old(self).reply_to,
    {
        self.attachment_hashes.push(hash);
    }

    /// A field-by-field copy.
    pub fn duplicate(&self) -> (r: Post)
        ensures
            r.id == self.id,
            r.author_fingerprint == self.author_fingerprint,
            r.content == self.content,
            r.tags@ == self.tags@,
            r.created_at == self.created_at,
            r.reply_to == self.reply_to,
            r.attachment_hashes@ == self.attachment_hashes@,
    {
        Post {
            id: self.id.clone(),
            author_fingerprint: self.author_fingerprint.clone(),
            content: self.content.clone(),
            tags: clone_strings(&self.tags),
            created_at: self.created_at,
            reply_to: clone_opt_string(&self.reply_to),
            attachment_hashes: clone_strings(&self.attachment_hashes),
        }
    }
}

impl SignedPost {
    /// Whether the signature checks against the post's canonical text under
    /// `public_key`.
    pub open spec fn valid_under(&self, public_key: Seq<char>) -> bool {
        signature_valid(canonical_post(self.post), self.signature@, public_key)
    }

    /// Signs the canonical text of `post` with `keypair`. The post is moved
    /// in, so nothing can be appended to what was signed.
    pub fn create(post: Post, keypair: &KeyPair) -> (r: Result<SignedPost, CoreError>)
        ensures
            match r {
                Ok(sp) => sp.post == post
                    && signing_outcome(keypair.secret_key@, canonical_post(post)) == Ok::<Seq<char>, CoreError>(sp.signature@),
                Err(e) => signing_outcome(keypair.secret_key@, canonical_post(post)) == Err::<Seq<char>, CoreError>(e),
            },
            r is Ok <==> secret_key_usable(keypair.secret_key@),
            keypair.wf() ==> (r matches Ok(sp) && sp.valid_under(keypair.public_key@)),
    {
        let json = post.to_canonical_json();
        match keypair.sign(json.as_str()) {
            Ok(signature) => Ok(SignedPost { post, signature }),
            Err(e) => Err(e),
        }
    }

    /// Whether the signature checks against the post's canonical text under
    /// `public_key` (base64).
    pub fn verify(&self, public_key: &str) -> (r: bool)
        ensures
            r == self.valid_under(public_key@),
    {
        let json = self.post.to_canonical_json();
        verify_signature(json.as_str(), self.signature.as_str(), public_key)
    }
}

} // verus!
