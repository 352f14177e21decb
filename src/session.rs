//! The local user's session: at most one key pair and one signed profile,
//! and the operations that create, update and use them.

use vstd::prelude::*;
use crate::codec::opt_view;
use crate::crypto::{KeyPair, secret_key_usable};
use crate::error::CoreError;
use crate::message::{Message, SignedMessage};
use crate::post::{Post, SignedPost};
use crate::profile::{magnet_text, Profile, SignedProfile};

verus! {

/// What identity a session holds.
#[derive(Debug)]
pub enum IdentityState {
    NoIdentity,
    HasKeyOnly { keypair: KeyPair },
    HasProfile { keypair: KeyPair, profile: SignedProfile },
}

/// A signed profile with its content address, as handed to callers.
#[derive(Debug)]
pub struct ProfileEnvelope {
    pub profile: Profile,
    pub signature: String,
    pub magnet_uri: String,
    pub api: String,
    pub version: u32,
}

/// Which versioned JSON entry points this build offers.
#[derive(Debug)]
pub struct CapabilityDescriptor {
    pub profile_json_api: bool,
    pub post_json_api: bool,
    pub message_json_api: bool,
    pub version: String,
}

/// The identity of the local user: at most one key pair and one signed
/// profile. Persisting them is the caller's part.
#[derive(Debug)]
pub struct SnartNetCore {
    pub state: IdentityState,
}

impl IdentityState {
    /// The key pair held, if any.
    pub open spec fn key(&self) -> Option<KeyPair> {
        match self {
            IdentityState::NoIdentity => None,
            IdentityState::HasKeyOnly { keypair } => Some(*keypair),
            IdentityState::HasProfile { keypair, .. } => Some(*keypair),
        }
    }

    /// The signed profile held, if any.
    pub open spec fn signed_profile(&self) -> Option<SignedProfile> {
        match self {
            IdentityState::HasProfile { profile, .. } => Some(*profile),
            _ => None,
        }
    }
}

impl IdentityState {
    /// A field-by-field copy.
    pub fn duplicate(&self) -> (r: IdentityState)
        ensures
            r == *self,
    {
        match self {
            IdentityState::NoIdentity => IdentityState::NoIdentity,
            IdentityState::HasKeyOnly { keypair } => IdentityState::HasKeyOnly { keypair: keypair.duplicate() },
            IdentityState::HasProfile { keypair, profile } => IdentityState::HasProfile {
                keypair: keypair.duplicate(),
                profile: profile.duplicate(),
            },
        }
    }
}

impl SnartNetCore {
    /// A copy of the session, to fall back on.
    pub fn duplicate(&self) -> (r: SnartNetCore)
        ensures
            r == *self,
    {
        SnartNetCore { state: self.state.duplicate() }
    }

    /// A session with no identity.
    pub fn new() -> (s: SnartNetCore)
        ensures
            s.state is NoIdentity,
    {
        SnartNetCore { state: IdentityState::NoIdentity }
    }

    /// Restores what was stored: a key pair, and a profile signed with it. A
    /// profile stored without its key pair is not restored.
    pub fn init(&mut self, stored_keypair: Option<KeyPair>, stored_profile: Option<SignedProfile>)
        ensures
            final(self).state.key() == stored_keypair,
            final(self).state.signed_profile() == (if stored_keypair is Some { stored_profile } else { None }),
    {
        self.state = match stored_keypair {
            None => IdentityState::NoIdentity,
            Some(keypair) => match stored_profile {
                None => IdentityState::HasKeyOnly { keypair },
                Some(profile) => IdentityState::HasProfile { keypair, profile },
            },
        };
    }
}

impl SnartNetCore {
    /// Creates the user's profile: makes a key pair if none is held, builds
    /// the profile, applies the display name and bio through `update`, stores
    /// the content address in it, signs it and holds key and profile. Returns
    /// the content address. On failure the session is unchanged.
    pub fn create_profile(&mut self, username: &str, display_name: Option<String>, bio: Option<String>) -> (r: Result<String, CoreError>)
        ensures
            r is Ok <==> (old(self).state.key() matches Some(k) ==> secret_key_usable(k.secret_key@)),
            r is Err ==> final(self).state == old(self).state,
            r matches Err(e) ==> e == CoreError::SecretKeyEncoding || e == CoreError::SecretKeyLength,
            r matches Ok(m) ==> (final(self).state matches IdentityState::HasProfile { keypair: k, profile: sp } && {
                &&& old(self).state.key() matches Some(k0) ==> k == k0
                &&& old(self).state.key() is None ==> k.wf()
                &&& sp.profile.username@ == username@
                &&& sp.profile.public_key@ == k.public_key@
                &&& sp.profile.fingerprint@ == k.fingerprint@
                &&& sp.profile.version == 2
                &&& opt_view(&sp.profile.display_name) == opt_view(&display_name)
                &&& opt_view(&sp.profile.bio) == opt_view(&bio)
                &&& sp.profile.avatar_hash is None
                &&& opt_view(&sp.profile.magnet_uri) == Some(m@)
                &&& m@ == magnet_text(Profile { magnet_uri: None, ..sp.profile })
                &&& k.wf() ==> sp.valid()
            }),
    {
        let keypair = match &self.state {
            IdentityState::NoIdentity => {
                match KeyPair::generate() {
                    Ok(k) => {
                        proof {
                            k.lemma_wf_usable();
                        }
                        k
                    },
                    Err(e) => {
                        return Err(e);
                    },
                }
            },
            IdentityState::HasKeyOnly { keypair } => keypair.duplicate(),
            IdentityState::HasProfile { keypair, .. } => keypair.duplicate(),
        };
        let mut profile = Profile::new(String::from_str(username), keypair.get_public_info());
        profile.update(display_name, bio);
        let magnet = profile.generate_magnet_uri();
        profile.magnet_uri = Some(magnet.clone());
        match SignedProfile::create(profile, &keypair) {
            Ok(signed) => {
                self.state = IdentityState::HasProfile { keypair, profile: signed };
                Ok(magnet)
            },
            Err(e) => Err(e),
        }
    }

    /// A copy of the current profile, if one is held.
    pub fn get_current_profile(&self) -> (r: Option<Profile>)
        ensures
            r == (match self.state.signed_profile() {
                Some(sp) => Some(sp.profile),
                None => None,
            }),
    {
        match &self.state {
            IdentityState::HasProfile { profile, .. } => Some(profile.profile.duplicate()),
            _ => None,
        }
    }

    /// Updates the current profile as one step: applies the fields, bumps the
    /// version, re-derives the content address, re-signs and holds the
    /// result. On failure the session is unchanged.
    pub fn update_current_profile(&mut self, display_name: Option<String>, bio: Option<String>) -> (r: Result<(), CoreError>)
        ensures
            r is Err ==> final(self).state == old(self).state,
            old(self).state.signed_profile() is None <==> r == Err::<(), CoreError>(CoreError::NoProfile),
            old(self).state matches IdentityState::HasProfile { keypair: k, profile: sp } ==> {
                &&& sp.profile.version == u32::MAX <==> r == Err::<(), CoreError>(CoreError::VersionLimit)
                &&& sp.profile.version < u32::MAX ==> (r is Ok <==> secret_key_usable(k.secret_key@))
                &&& r is Ok ==> (final(self).state matches IdentityState::HasProfile { keypair: k2, profile: sp2 } && {
                    &&& k2 == k
                    &&& sp2.profile.id@ == sp.profile.id@
                    &&& sp2.profile.username@ == sp.profile.username@
                    &&& sp2.profile.public_key@ == sp.profile.public_key@
                    &&& sp2.profile.fingerprint@ == sp.profile.fingerprint@
                    &&& sp2.profile.created_at == sp.profile.created_at
                    &&& sp2.profile.version == sp.profile.version + 1
                    &&& sp.profile.updated_at.wf() ==> sp2.profile.updated_at.wf()
                    &&& !sp.profile.updated_at.is_last() ==> sp2.profile.updated_at.later_than(sp.profile.updated_at)
                    &&& opt_view(&sp2.profile.display_name) == (if display_name is Some { opt_view(&display_name) } else { opt_view(&sp.profile.display_name) })
                    &&& opt_view(&sp2.profile.bio) == (if bio is Some { opt_view(&bio) } else { opt_view(&sp.profile.bio) })
                    &&& sp2.profile.magnet_uri matches Some(m)
                        && m@ == magnet_text(Profile { magnet_uri: sp.profile.magnet_uri, ..sp2.profile })
                    &&& sp.profile.public_key@ == k.public_key@ && k.wf() ==> sp2.valid()
                })
            },
    {
        let (keypair, mut profile) = match &self.state {
            IdentityState::HasProfile { keypair, profile } => (keypair.duplicate(), profile.profile.duplicate()),
            _ => {
                return Err(CoreError::NoProfile);
            },
        };
        if profile.version == u32::MAX {
            return Err(CoreError::VersionLimit);
        }
        profile.update(display_name, bio);
        let magnet = profile.generate_magnet_uri();
        profile.magnet_uri = Some(magnet);
        match SignedProfile::create(profile, &keypair) {
            Ok(signed) => {
                self.state = IdentityState::HasProfile { keypair, profile: signed };
                Ok(())
            },
            Err(e) => Err(e),
        }
    }

    /// The current profile with its signature and content address; the
    /// stored address, or one derived now when none is stored.
    pub fn current_profile_envelope(&self) -> (r: Option<ProfileEnvelope>)
        ensures
            self.state.signed_profile() is None <==> r is None,
            r matches Some(env) ==> (self.state.signed_profile() matches Some(sp) && {
                &&& env.profile == sp.profile
                &&& env.signature == sp.signature
                &&& env.magnet_uri@ == (match sp.profile.magnet_uri {
                    Some(m) => m@,
                    None => magnet_text(sp.profile),
                })
                &&& env.api@ == "profile-json-v1"@
                &&& env.version == sp.profile.version
            }),
    {
        match &self.state {
            IdentityState::HasProfile { profile, .. } => {
                let magnet_uri = match &profile.profile.magnet_uri {
                    Some(m) => m.clone(),
                    None => profile.profile.generate_magnet_uri(),
                };
                Some(ProfileEnvelope {
                    profile: profile.profile.duplicate(),
                    signature: profile.signature.clone(),
                    magnet_uri,
                    api: String::from_str("profile-json-v1"),
                    version: profile.profile.version,
                })
            },
            _ => None,
        }
    }

    /// The JSON entry points this build offers: the profile one only.
    pub fn get_capabilities(&self) -> (r: CapabilityDescriptor)
        ensures
            r.profile_json_api,
            !r.post_json_api,
            !r.message_json_api,
            r.version@ == "1"@,
    {
        CapabilityDescriptor {
            profile_json_api: true,
            post_json_api: false,
            message_json_api: false,
            version: String::from_str("1"),
        }
    }

    /// A new post by the current profile, signed with the session's key.
    pub fn create_post(&self, content: &str, tags: Option<Vec<String>>, reply_to: Option<String>) -> (r: Result<SignedPost, CoreError>)
        ensures
            self.state is NoIdentity <==> r == Err::<SignedPost, CoreError>(CoreError::NoKeypair),
            self.state is HasKeyOnly <==> r == Err::<SignedPost, CoreError>(CoreError::NoProfile),
            self.state matches IdentityState::HasProfile { keypair: k, profile: sp } ==> {
                &&& r is Ok <==> secret_key_usable(k.secret_key@)
                &&& r matches Ok(signed) ==> {
                    &&& signed.post.author_fingerprint@ == sp.profile.fingerprint@
                    &&& signed.post.content@ == content@
                    &&& signed.post.tags@ == (match tags { Some(t) => t@, None => Seq::<String>::empty() })
                    &&& signed.post.reply_to == reply_to
                    &&& signed.post.attachment_hashes@.len() == 0
                    &&& k.wf() ==> signed.valid_under(k.public_key@)
                }
            },
    {
        let (keypair, profile) = match &self.state {
            IdentityState::NoIdentity => {
                return Err(CoreError::NoKeypair);
            },
            IdentityState::HasKeyOnly { .. } => {
                return Err(CoreError::NoProfile);
            },
            IdentityState::HasProfile { keypair, profile } => (keypair, profile),
        };
        let post = Post::new(profile.profile.fingerprint.clone(), String::from_str(content), tags, reply_to);
        SignedPost::create(post, keypair)
    }

    /// A new direct message from the current profile, signed with the
    /// session's key.
    pub fn create_message(&self, recipient_fingerprint: &str, content: &str) -> (r: Result<SignedMessage, CoreError>)
        ensures
            self.state is NoIdentity <==> r == Err::<SignedMessage, CoreError>(CoreError::NoKeypair),
            self.state is HasKeyOnly <==> r == Err::<SignedMessage, CoreError>(CoreError::NoProfile),
            self.state matches IdentityState::HasProfile { keypair: k, profile: sp } ==> {
                &&& r is Ok <==> secret_key_usable(k.secret_key@)
                &&& r matches Ok(signed) ==> {
                    &&& signed.message.sender_fingerprint@ == sp.profile.fingerprint@
                    &&& signed.message.recipient_fingerprint@ == recipient_fingerprint@
                    &&& signed.message.content@ == content@
                    &&& !signed.message.encrypted
                    &&& signed.message.message_type is Direct
                    &&& k.wf() ==> signed.valid_under(k.public_key@)
                }
            },
    {
        let (keypair, profile) = match &self.state {
            IdentityState::NoIdentity => {
                return Err(CoreError::NoKeypair);
            },
            IdentityState::HasKeyOnly { .. } => {
                return Err(CoreError::NoProfile);
            },
            IdentityState::HasProfile { keypair, profile } => (keypair, profile),
        };
        let message = Message::new_direct(
            profile.profile.fingerprint.clone(),
            String::from_str(recipient_fingerprint),
            String::from_str(content),
        );
        SignedMessage::create(message, keypair)
    }

    /// The public key of the key pair held.
    pub fn get_public_key(&self) -> (r: Result<String, CoreError>)
        ensures
            match self.state.key() {
                Some(k) => r matches Ok(s) && s == k.public_key,
                None => r == Err::<String, CoreError>(CoreError::NoKeypair),
            },
    {
        match &self.state {
            IdentityState::NoIdentity => Err(CoreError::NoKeypair),
            IdentityState::HasKeyOnly { keypair } => Ok(keypair.public_key.clone()),
            IdentityState::HasProfile { keypair, .. } => Ok(keypair.public_key.clone()),
        }
    }

    /// The fingerprint of the key pair held.
    pub fn get_fingerprint(&self) -> (r: Result<String, CoreError>)
        ensures
            match self.state.key() {
                Some(k) => r matches Ok(s) && s == k.fingerprint,
                None => r == Err::<String, CoreError>(CoreError::NoKeypair),
            },
    {
        match &self.state {
            IdentityState::NoIdentity => Err(CoreError::NoKeypair),
            IdentityState::HasKeyOnly { keypair } => Ok(keypair.fingerprint.clone()),
            IdentityState::HasProfile { keypair, .. } => Ok(keypair.fingerprint.clone()),
        }
    }

    /// Whether a profile is held.
    pub fn has_profile(&self) -> (r: bool)
        ensures
            r == self.state.signed_profile() is Some,
    {
        match &self.state {
            IdentityState::HasProfile { .. } => true,
            _ => false,
        }
    }
}

} // verus!
