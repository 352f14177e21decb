use snartnet_core::crypto::{fingerprint, fingerprint_of_public_key, sha256_hex, verify_signature, KeyPair};
use snartnet_core::error::CoreError;
use snartnet_core::message::{Message, MessageType, SignedMessage};
use snartnet_core::post::{Post, SignedPost};
use snartnet_core::profile::{Profile, SignedProfile};
use snartnet_core::session::SnartNetCore;
use snartnet_core::time::Timestamp;

const RFC_SECRET: &str = "nWGxne/9WmC6hEr0kuwsxERJxWl7MmkZcDusAxyuf2A=";
const RFC_PUBLIC: &str = "11qYAYKxCrfVS/7TyWQHOg7hcvPapiMlrwIaaPcHURo=";
const RFC_EMPTY_SIGNATURE: &str =
    "5VZDAMNgrHKQhuLMgG6CioSHfx645dl02HPgZSJJAVVfuIIVkKM7rMYeOXAc+bRr0lv18FlbviRlUUFDjnoQCw==";

fn ts(year: u32, second: u32, nanosecond: u32) -> Timestamp {
    Timestamp { year, month: 1, day: 2, hour: 3, minute: 4, second, nanosecond }
}

fn fixed_profile() -> Profile {
    Profile {
        id: "id-1".to_string(),
        username: "alice".to_string(),
        display_name: Some("Al \"A\"".to_string()),
        bio: None,
        avatar_hash: None,
        public_key: "PK".to_string(),
        fingerprint: "FP".to_string(),
        created_at: ts(2024, 5, 6),
        updated_at: ts(2024, 5, 6),
        version: 1,
        magnet_uri: None,
    }
}

fn rfc_keypair() -> KeyPair {
    KeyPair {
        public_key: RFC_PUBLIC.to_string(),
        secret_key: RFC_SECRET.to_string(),
        fingerprint: "If4x36FUomFia/hUBG/SJw==".to_string(),
    }
}

#[test]
fn sign_then_verify_accepts() {
    let k = KeyPair::generate().unwrap();
    for m in ["", "hello", "héllo wörld ✓", "{\"a\":1}"] {
        let sig = k.sign(m).unwrap();
        assert!(verify_signature(m, &sig, &k.public_key));
    }
}

#[test]
fn flipped_message_bit_rejected() {
    let k = KeyPair::generate().unwrap();
    let m = "attack at dawn";
    let sig = k.sign(m).unwrap();
    let mut bytes = m.as_bytes().to_vec();
    for i in 0..bytes.len() {
        for bit in 0..7 {
            bytes[i] ^= 1 << bit;
            let changed = String::from_utf8(bytes.clone()).unwrap();
            assert!(!verify_signature(&changed, &sig, &k.public_key));
            bytes[i] ^= 1 << bit;
        }
    }
}

#[test]
fn other_key_rejects() {
    let k1 = KeyPair::generate().unwrap();
    let k2 = KeyPair::generate().unwrap();
    assert_ne!(k1.public_key, k2.public_key);
    let sig = k1.sign("message").unwrap();
    assert!(!verify_signature("message", &sig, &k2.public_key));
}

#[test]
fn fingerprint_is_deterministic_and_distinct() {
    let k = KeyPair::generate().unwrap();
    let again = fingerprint_of_public_key(&k.public_key).unwrap();
    assert_eq!(again, k.fingerprint);
    assert_eq!(fingerprint_of_public_key(&k.public_key).unwrap(), again);
    let mut seen = std::collections::HashSet::new();
    for _ in 0..2000 {
        let k = KeyPair::generate().unwrap();
        assert!(seen.insert(k.fingerprint.clone()));
    }
}

#[test]
fn known_key_vectors() {
    let zero = KeyPair::from_seed(&[0u8; 32]);
    assert_eq!(zero.secret_key, "AAAAAAAAAAAAAAAAAAAAAAAAAAAAAAAAAAAAAAAAAAA=");
    assert_eq!(zero.public_key, "O2onvM62pC1io6jQKm8Nc2UyFXcd4kOmOsBIoYtZ2ik=");
    let rfc = rfc_keypair();
    let derived = KeyPair::from_seed(&[
        0x9d, 0x61, 0xb1, 0x9d, 0xef, 0xfd, 0x5a, 0x60, 0xba, 0x84, 0x4a, 0xf4, 0x92, 0xec, 0x2c, 0xc4,
        0x44, 0x49, 0xc5, 0x69, 0x7b, 0x32, 0x69, 0x19, 0x70, 0x3b, 0xac, 0x03, 0x1c, 0xae, 0x7f, 0x60,
    ]);
    assert_eq!(derived.public_key, rfc.public_key);
    assert_eq!(derived.fingerprint, rfc.fingerprint);
    assert_eq!(rfc.sign("").unwrap(), RFC_EMPTY_SIGNATURE);
    assert!(verify_signature("", RFC_EMPTY_SIGNATURE, RFC_PUBLIC));
}

#[test]
fn fingerprint_of_raw_key() {
    let pk = [
        0xd7, 0x5a, 0x98, 0x01, 0x82, 0xb1, 0x0a, 0xb7, 0xd5, 0x4b, 0xfe, 0xd3, 0xc9, 0x64, 0x07, 0x3a,
        0x0e, 0xe1, 0x72, 0xf3, 0xda, 0xa6, 0x23, 0x25, 0xaf, 0x02, 0x1a, 0x68, 0xf7, 0x07, 0x51, 0x1a,
    ];
    assert_eq!(fingerprint(&pk), "If4x36FUomFia/hUBG/SJw==");
    assert_eq!(fingerprint_of_public_key("not base64!"), None);
}

#[test]
fn sha256_hex_known_answer() {
    assert_eq!(sha256_hex("abc"), "ba7816bf8f01cfea414140de5dae2223b00361a396177a9cb410ff61f20015ad");
}

#[test]
fn sign_rejects_bad_secret_keys() {
    let mut k = rfc_keypair();
    k.secret_key = "###".to_string();
    assert_eq!(k.sign("x"), Err(CoreError::SecretKeyEncoding));
    k.secret_key = "AAAAAAAAAAAAAAAAAAAAAAAAAAAAAAAAAAAAAAAAAA==".to_string();
    assert_eq!(k.sign("x"), Err(CoreError::SecretKeyLength));
}

#[test]
fn verify_false_on_malformed_inputs() {
    assert!(!verify_signature("", "###", RFC_PUBLIC));
    assert!(!verify_signature("", RFC_EMPTY_SIGNATURE, "###"));
    assert!(!verify_signature("", "AAAA", RFC_PUBLIC));
    assert!(!verify_signature("", RFC_EMPTY_SIGNATURE, "AAAA"));
}

#[test]
fn tampered_signature_never_verifies() {
    let k = rfc_keypair();
    let sig = k.sign("hello").unwrap();
    let chars: Vec<char> = sig.chars().collect();
    for i in 0..chars.len() {
        for c in ['A', 'B', '/', '+', '=', '#'] {
            if chars[i] == c {
                continue;
            }
            let mut t = chars.clone();
            t[i] = c;
            let tampered: String = t.into_iter().collect();
            assert!(!verify_signature("hello", &tampered, &k.public_key));
        }
    }
}

#[test]
fn timestamp_text_and_order() {
    assert_eq!(ts(2024, 5, 6).to_rfc3339(), "2024-01-02T03:04:05.000000006Z");
    assert_eq!(ts(7, 0, 123_456_789).to_rfc3339(), "0007-01-02T03:04:00.123456789Z");
    assert!(ts(2024, 5, 7).is_later_than(&ts(2024, 5, 6)));
    assert!(!ts(2024, 5, 6).is_later_than(&ts(2024, 5, 6)));
    assert!(ts(2025, 0, 0).is_later_than(&ts(2024, 59, 999_999_999)));
}

#[test]
fn timestamp_from_clock_edges() {
    let leap = Timestamp::from_clock(2016, 12, 31, 23, 59, 59, 1_500_000_000);
    assert_eq!(leap.second, 60);
    assert_eq!(leap.nanosecond, 500_000_000);
    let low = Timestamp::from_clock(-5, 3, 3, 3, 3, 3, 3);
    assert_eq!(low.to_rfc3339(), "0000-01-01T00:00:00.000000000Z");
    let high = Timestamp::from_clock(10000, 3, 3, 3, 3, 3, 3);
    assert_eq!(high.to_rfc3339(), "9999-12-31T23:59:60.999999999Z");
    let now = Timestamp::now();
    assert!(now.year >= 2020 && now.month >= 1 && now.month <= 12);
}

#[test]
fn canonical_profile_exact() {
    let p = fixed_profile();
    assert_eq!(
        p.to_canonical_json(),
        "{\"id\":\"id-1\",\"username\":\"alice\",\"displayName\":\"Al \\\"A\\\"\",\"bio\":null,\"avatarHash\":null,\"publicKey\":\"PK\",\"fingerprint\":\"FP\",\"createdAt\":\"2024-01-02T03:04:05.000000006Z\",\"updatedAt\":\"2024-01-02T03:04:05.000000006Z\",\"version\":1,\"magnetUri\":null}"
    );
}

#[test]
fn canonical_escapes_control_characters() {
    let mut p = fixed_profile();
    p.display_name = Some("a\\b\nc\td\u{1}\u{1f}é".to_string());
    let json = p.to_canonical_json();
    assert!(json.contains("\"displayName\":\"a\\\\b\\nc\\td\\u0001\\u001fé\""));
}

#[test]
fn magnet_uri_exact_and_sensitive() {
    let p = fixed_profile();
    let m = p.generate_magnet_uri();
    assert_eq!(
        m,
        "magnet:?xt=urn:btih:b787f24c02e971dc2aa1c4e1d1ef83d388203edadaf8ff61851a5c7ef9c7a0e6&dn=profile_alice"
    );
    assert_eq!(p.duplicate().generate_magnet_uri(), m);
    let mut q = p.duplicate();
    q.version = 2;
    assert_ne!(q.generate_magnet_uri(), m);
    let mut r = p.duplicate();
    r.bio = Some(String::new());
    assert_ne!(r.generate_magnet_uri(), m);
}

#[test]
fn profile_update_partial_and_monotone() {
    let mut p = fixed_profile();
    p.update_at(None, Some("bio".to_string()), ts(2024, 6, 0));
    assert_eq!(p.display_name.as_deref(), Some("Al \"A\""));
    assert_eq!(p.bio.as_deref(), Some("bio"));
    assert_eq!(p.version, 2);
    assert!(p.updated_at.is_later_than(&p.created_at));
    assert_eq!(p.created_at, ts(2024, 5, 6));
    p.update_at(Some(String::new()), None, ts(2024, 7, 0));
    assert_eq!(p.display_name.as_deref(), Some(""));
    assert_eq!(p.bio.as_deref(), Some("bio"));
    assert_eq!(p.version, 3);
}

#[test]
fn profile_update_invalidates_old_signature() {
    let k = KeyPair::generate().unwrap();
    let p = Profile::new("dora".to_string(), k.get_public_info());
    let signed = SignedProfile::create(p, &k).unwrap();
    assert!(signed.verify());
    let mut changed = signed.profile.duplicate();
    let before = changed.updated_at;
    changed.update(None, Some("x".to_string()));
    assert_eq!(changed.version, signed.profile.version + 1);
    assert!(changed.updated_at.is_later_than(&before));
    let stale = SignedProfile { profile: changed.duplicate(), signature: signed.signature.clone() };
    assert!(!stale.verify());
    let fresh = SignedProfile::create(changed, &k).unwrap();
    assert!(fresh.verify());
}

#[test]
fn scenario_alice_signs_profile() {
    let k = KeyPair::generate().unwrap();
    let p = Profile::new("alice".to_string(), k.get_public_info());
    assert_eq!(p.version, 1);
    assert_eq!(p.id.len(), 36);
    assert_eq!(p.created_at, p.updated_at);
    let signed = SignedProfile::create(p, &k).unwrap();
    assert!(signed.verify());
    assert!(verify_signature(&signed.profile.to_canonical_json(), &signed.signature, &k.public_key));
}

#[test]
fn scenario_bob_updates_bio() {
    let k = KeyPair::generate().unwrap();
    let p = Profile::new("bob".to_string(), k.get_public_info());
    let signed = SignedProfile::create(p, &k).unwrap();
    let mut mutated = signed.profile.duplicate();
    mutated.update(None, Some("new bio".to_string()));
    let json = mutated.to_canonical_json();
    assert!(!verify_signature(&json, &signed.signature, &k.public_key));
    let resigned = SignedProfile::create(mutated, &k).unwrap();
    assert!(verify_signature(&json, &resigned.signature, &k.public_key));
}

#[test]
fn scenario_carol_session() {
    let mut s = SnartNetCore::new();
    s.init(None, None);
    assert!(!s.has_profile());
    let magnet = s.create_profile("carol", None, None).unwrap();
    assert!(s.has_profile());
    let public = s.get_public_key().unwrap();
    assert_eq!(s.get_fingerprint().unwrap(), fingerprint_of_public_key(&public).unwrap());
    let p = s.get_current_profile().unwrap();
    assert_eq!(p.username, "carol");
    assert_eq!(p.version, 2);
    assert_eq!(p.magnet_uri.as_deref(), Some(magnet.as_str()));
    assert!(magnet.starts_with("magnet:?xt=urn:btih:"));
    assert!(magnet.ends_with("&dn=profile_carol"));
    let env = s.current_profile_envelope().unwrap();
    assert_eq!(env.api, "profile-json-v1");
    assert_eq!(env.version, 2);
    assert_eq!(env.magnet_uri, magnet);
    let signed = SignedProfile { profile: env.profile, signature: env.signature };
    assert!(signed.verify());
}

#[test]
fn session_update_resigns() {
    let mut s = SnartNetCore::new();
    s.create_profile("erin", Some("Erin".to_string()), None).unwrap();
    s.update_current_profile(None, Some("hi".to_string())).unwrap();
    let env = s.current_profile_envelope().unwrap();
    assert_eq!(env.version, 3);
    assert_eq!(env.profile.bio.as_deref(), Some("hi"));
    assert_eq!(env.profile.display_name.as_deref(), Some("Erin"));
    let signed = SignedProfile { profile: env.profile, signature: env.signature };
    assert!(signed.verify());
}

#[test]
fn session_errors_without_identity() {
    let mut s = SnartNetCore::new();
    assert_eq!(s.get_public_key(), Err(CoreError::NoKeypair));
    assert_eq!(s.get_fingerprint(), Err(CoreError::NoKeypair));
    assert_eq!(s.create_post("x", None, None).err(), Some(CoreError::NoKeypair));
    assert_eq!(s.create_message("r", "x").err(), Some(CoreError::NoKeypair));
    assert_eq!(s.update_current_profile(None, None), Err(CoreError::NoProfile));
    assert!(s.get_current_profile().is_none());
    assert!(s.current_profile_envelope().is_none());
    s.init(Some(KeyPair::generate().unwrap()), None);
    assert_eq!(s.create_post("x", None, None).err(), Some(CoreError::NoProfile));
    assert_eq!(s.create_message("r", "x").err(), Some(CoreError::NoProfile));
    assert!(!s.has_profile());
}

#[test]
fn session_bad_stored_key_fails_and_keeps_state() {
    let mut s = SnartNetCore::new();
    let mut k = rfc_keypair();
    k.secret_key = "###".to_string();
    s.init(Some(k), None);
    assert_eq!(s.create_profile("frank", None, None), Err(CoreError::SecretKeyEncoding));
    assert!(!s.has_profile());
}

#[test]
fn session_version_limit() {
    let k = rfc_keypair();
    let mut p = fixed_profile();
    p.public_key = k.public_key.clone();
    p.version = u32::MAX;
    let signed = SignedProfile::create(p, &k).unwrap();
    let mut s = SnartNetCore::new();
    s.init(Some(k), Some(signed));
    assert_eq!(s.update_current_profile(None, None), Err(CoreError::VersionLimit));
    assert_eq!(s.get_current_profile().unwrap().version, u32::MAX);
}

#[test]
fn session_posts_and_messages() {
    let mut s = SnartNetCore::new();
    s.create_profile("gina", None, None).unwrap();
    let public = s.get_public_key().unwrap();
    let fp = s.get_fingerprint().unwrap();
    let post = s.create_post("hello", Some(vec!["a".to_string(), "a".to_string()]), None).unwrap();
    assert_eq!(post.post.author_fingerprint, fp);
    assert_eq!(post.post.tags, vec!["a".to_string(), "a".to_string()]);
    assert!(post.verify(&public));
    let msg = s.create_message("someone", "hi").unwrap();
    assert_eq!(msg.message.sender_fingerprint, fp);
    assert!(!msg.message.encrypted);
    assert!(matches!(msg.message.message_type, MessageType::Direct));
    assert!(msg.verify(&public));
    let caps = s.get_capabilities();
    assert!(caps.profile_json_api && !caps.post_json_api && !caps.message_json_api);
    assert_eq!(caps.version, "1");
}

#[test]
fn post_attachments_append_and_resign() {
    let k = rfc_keypair();
    let mut post = Post::new("fp".to_string(), "c".to_string(), None, Some("parent".to_string()));
    assert!(post.tags.is_empty());
    post.add_attachment("h1".to_string());
    post.add_attachment("h1".to_string());
    assert_eq!(post.attachment_hashes, vec!["h1".to_string(), "h1".to_string()]);
    let signed = SignedPost::create(post.duplicate(), &k).unwrap();
    assert!(signed.verify(RFC_PUBLIC));
    post.add_attachment("h2".to_string());
    let stale = SignedPost { post, signature: signed.signature.clone() };
    assert!(!stale.verify(RFC_PUBLIC));
}

#[test]
fn canonical_post_exact() {
    let post = Post {
        id: "p".to_string(),
        author_fingerprint: "f".to_string(),
        content: "c".to_string(),
        tags: vec!["x".to_string(), "y".to_string()],
        created_at: ts(2024, 5, 6),
        reply_to: None,
        attachment_hashes: vec![],
    };
    assert_eq!(
        post.to_canonical_json(),
        "{\"id\":\"p\",\"authorFingerprint\":\"f\",\"content\":\"c\",\"tags\":[\"x\",\"y\"],\"createdAt\":\"2024-01-02T03:04:05.000000006Z\",\"replyTo\":null,\"attachmentHashes\":[]}"
    );
}

#[test]
fn canonical_message_exact() {
    let mut m = Message::new_group("s".to_string(), "r".to_string(), "g".to_string(), "c".to_string());
    m.id = "m".to_string();
    m.created_at = ts(2024, 5, 6);
    assert_eq!(
        m.to_canonical_json(),
        "{\"id\":\"m\",\"senderFingerprint\":\"s\",\"recipientFingerprint\":\"r\",\"content\":\"c\",\"createdAt\":\"2024-01-02T03:04:05.000000006Z\",\"encrypted\":false,\"kind\":{\"type\":\"group\",\"groupId\":\"g\"}}"
    );
    let mut d = Message::new_direct("s".to_string(), "r".to_string(), "c".to_string());
    d.id = "m".to_string();
    d.created_at = ts(2024, 5, 6);
    assert!(d.to_canonical_json().ends_with("\"encrypted\":false,\"kind\":{\"type\":\"direct\"}}"));
    let k = rfc_keypair();
    let signed = SignedMessage::create(d, &k).unwrap();
    assert!(signed.verify(RFC_PUBLIC));
    assert!(!signed.verify("O2onvM62pC1io6jQKm8Nc2UyFXcd4kOmOsBIoYtZ2ik="));
}

#[test]
fn error_messages() {
    assert_eq!(CoreError::NoKeypair.message(), "No keypair available");
    assert_eq!(CoreError::NoProfile.message(), "No current profile");
}

#[test]
fn canonical_profile_round_trip() {
    let mut p = fixed_profile();
    p.bio = Some("line\nbreak \u{7} tab\t \\ \"q\" ü".to_string());
    p.magnet_uri = Some("magnet:?xt=urn:btih:00&dn=profile_alice".to_string());
    p.version = 4_000_000_000;
    let json = p.to_canonical_json();
    let back = Profile::from_canonical_json(&json).unwrap();
    assert_eq!(back.to_canonical_json(), json);
    assert_eq!(back.bio, p.bio);
    assert_eq!(back.version, 4_000_000_000);
    assert_eq!(back.created_at, p.created_at);
    let k = KeyPair::generate().unwrap();
    let fresh = Profile::new("zoe".to_string(), k.get_public_info());
    let json = fresh.to_canonical_json();
    assert_eq!(Profile::from_canonical_json(&json).unwrap().to_canonical_json(), json);
}

#[test]
fn canonical_profile_decoder_rejects_other_shapes() {
    let json = fixed_profile().to_canonical_json();
    assert!(Profile::from_canonical_json(&json[..json.len() - 1]).is_none());
    assert!(Profile::from_canonical_json(&format!("{} ", json)).is_none());
    assert!(Profile::from_canonical_json(&json.replace("\"version\":1", "\"version\":01")).is_none());
    assert!(Profile::from_canonical_json(&json.replace("-01-02T", "-13-02T")).is_none());
    assert!(Profile::from_canonical_json(&json.replace("\"bio\":null", "\"bio\":\"\\u000a\"")).is_none());
    assert!(Profile::from_canonical_json(&json.replace("\"bio\":null", "\"bio\" : null")).is_none());
    assert!(Profile::from_canonical_json("").is_none());
}

#[test]
fn rfc3339_text_round_trip() {
    let t = ts(1999, 60, 999_999_999);
    assert_eq!(Timestamp::from_rfc3339(&t.to_rfc3339()), Some(t));
    assert_eq!(Timestamp::from_rfc3339("1999-01-02T03:04:05Z"), None);
    assert_eq!(Timestamp::from_rfc3339("1999-01-32T03:04:05.000000000Z"), None);
}

#[test]
fn canonical_post_and_message_round_trip() {
    let mut post = Post::new("fp".to_string(), "multi\nline \"c\"".to_string(), Some(vec!["t1".to_string(), "".to_string()]), None);
    post.add_attachment("h".to_string());
    let json = post.to_canonical_json();
    let back = Post::from_canonical_json(&json).unwrap();
    assert_eq!(back.to_canonical_json(), json);
    assert_eq!(back.tags, post.tags);
    assert_eq!(back.attachment_hashes, vec!["h".to_string()]);
    let empty = Post::new("fp".to_string(), String::new(), None, Some("r".to_string()));
    let json = empty.to_canonical_json();
    assert_eq!(Post::from_canonical_json(&json).unwrap().to_canonical_json(), json);
    assert!(Post::from_canonical_json(&json.replace("\"tags\":[]", "\"tags\":[,]")).is_none());

    let direct = Message::new_direct("a".to_string(), "b".to_string(), "hi".to_string());
    let json = direct.to_canonical_json();
    let back = Message::from_canonical_json(&json).unwrap();
    assert_eq!(back.to_canonical_json(), json);
    assert!(matches!(back.message_type, MessageType::Direct));
    let group = Message::new_group("a".to_string(), "b".to_string(), "g\\1".to_string(), "hi".to_string());
    let json = group.to_canonical_json();
    let back = Message::from_canonical_json(&json).unwrap();
    assert_eq!(back.to_canonical_json(), json);
    assert!(matches!(back.message_type, MessageType::Group { ref group_id } if group_id == "g\\1"));
    assert!(Message::from_canonical_json(&json.replace("\"encrypted\":false", "\"encrypted\":no")).is_none());
}

#[test]
fn update_time_moves_forward_when_clock_does_not() {
    let mut p = fixed_profile();
    let old = p.updated_at;
    p.update_at(None, None, old);
    assert_eq!(p.updated_at, ts(2024, 5, 7));
    assert!(p.updated_at.is_later_than(&old));
    let earlier = ts(2020, 0, 0);
    let before = p.updated_at;
    p.update_at(None, Some("b".to_string()), earlier);
    assert_eq!(p.updated_at, ts(2024, 5, 8));
    assert!(p.updated_at.is_later_than(&before));
    assert_eq!(p.version, 3);
    let later = ts(2025, 0, 0);
    p.update_at(None, None, later);
    assert_eq!(p.updated_at, later);
}

#[test]
fn next_instant_carries() {
    let t = |y, mo, d, h, mi, s, ns| Timestamp { year: y, month: mo, day: d, hour: h, minute: mi, second: s, nanosecond: ns };
    assert_eq!(t(2024, 1, 2, 3, 4, 5, 6).next_instant(), t(2024, 1, 2, 3, 4, 5, 7));
    assert_eq!(t(2024, 1, 2, 3, 4, 5, 999_999_999).next_instant(), t(2024, 1, 2, 3, 4, 6, 0));
    assert_eq!(t(2024, 1, 2, 3, 59, 59, 999_999_999).next_instant(), t(2024, 1, 2, 4, 0, 0, 0));
    assert_eq!(t(2024, 1, 2, 23, 59, 59, 999_999_999).next_instant(), t(2024, 1, 2, 23, 59, 60, 0));
    assert_eq!(t(2024, 2, 28, 23, 59, 60, 999_999_999).next_instant(), t(2024, 2, 29, 0, 0, 0, 0));
    assert_eq!(t(2023, 2, 28, 23, 59, 60, 999_999_999).next_instant(), t(2023, 3, 1, 0, 0, 0, 0));
    assert_eq!(t(2023, 12, 31, 23, 59, 60, 999_999_999).next_instant(), t(2024, 1, 1, 0, 0, 0, 0));
    let last = t(9999, 12, 31, 23, 59, 60, 999_999_999);
    assert_eq!(last.next_instant(), last);
}

#[test]
fn rfc3339_text_of_any_valid_timestamp_reads_back() {
    for t in [ts(0, 0, 0), ts(9999, 60, 999_999_999), ts(1970, 30, 1)] {
        assert_eq!(Timestamp::from_rfc3339(&t.to_rfc3339()), Some(t));
    }
}
