//! The key pair with which the daemon identifies itself to the gateway.

use vstd::prelude::*;

use crate::crypto;
use crate::crypto::{
    encode_base64url, public_from_pem, public_key, public_to_pem, secret_from_pem, secret_to_pem,
    sha256, sign,
};
use crate::failure::Failure;
use crate::text;

verus! {

/// The identity of the daemon as a device.
#[derive(Debug, Clone)]
pub struct GatewayDeviceIdentity {
    device_id: String,
    public_key_raw_base64url: String,
    secret: Vec<u8>,
}

pub struct DeviceView {
    /// The SHA-256 digest of the public key, in hexadecimal digits.
    pub device_id: Seq<char>,
    /// The public key in URL-safe Base64.
    pub public_key: Seq<char>,
    pub secret: Seq<u8>,
}

impl View for GatewayDeviceIdentity {
    type V = DeviceView;

    closed spec fn view(&self) -> DeviceView {
        DeviceView {
            device_id: self.device_id@,
            public_key: self.public_key_raw_base64url@,
            secret: self.secret@,
        }
    }
}

/// The fingerprint of a public key.
pub open spec fn fingerprint_of(public: Seq<u8>) -> Seq<char> {
    text::hex_lower(crypto::sha256_digest(public))
}

/// The fingerprint of a public key.
pub fn fingerprint(public: &[u8]) -> (id: String)
    ensures
        id@ == fingerprint_of(public@),
{
    text::hex_lower_text(sha256(public).as_slice())
}

/// The identity made of a secret key and a public key.
pub open spec fn device_of_keys(secret: Seq<u8>, public: Seq<u8>) -> DeviceView {
    DeviceView {
        device_id: fingerprint_of(public),
        public_key: crypto::base64url(public),
        secret,
    }
}

/// The identity that two PEM documents hold, or what is wrong with them.
pub open spec fn device_of_pems(private_pem: Seq<char>, public_pem: Seq<char>) -> Result<
    DeviceView,
    Seq<char>,
> {
    match crypto::pem_secret(private_pem) {
        Err(message) => Err(message),
        Ok(secret) => match crypto::pem_public(public_pem) {
            Err(message) => Err(message),
            Ok(public) => Ok(device_of_keys(secret, public)),
        },
    }
}

pub open spec fn device_result(result: Result<GatewayDeviceIdentity, Failure>) -> Result<
    DeviceView,
    Seq<char>,
> {
    match result {
        Ok(identity) => Ok(identity@),
        Err(f) => Err(f@),
    }
}

/// The documents in which an identity is kept.
#[derive(Debug, Clone)]
pub struct KeyDocuments {
    pub private_key_pem: String,
    pub public_key_pem: String,
}

/// An identity that has been made, and the documents in which it is to be kept.
#[derive(Debug, Clone)]
pub struct NewDeviceIdentity {
    pub identity: GatewayDeviceIdentity,
    pub documents: KeyDocuments,
}

/// An identity, and the documents that are to be kept where it is new.
#[derive(Debug, Clone)]
pub struct ResolvedDevice {
    pub identity: GatewayDeviceIdentity,
    pub new_documents: Option<KeyDocuments>,
}

/// The identity in the documents, or where there are none, the one made of a secret key.
pub open spec fn device_or_new(documents: Option<KeyDocuments>, secret: Seq<u8>) -> Result<
    DeviceView,
    Seq<char>,
> {
    match documents {
        Some(d) => device_of_pems(d.private_key_pem@, d.public_key_pem@),
        None => Ok(device_of_keys(secret, crypto::ed25519_public(secret))),
    }
}

pub open spec fn resolved_device(result: Result<ResolvedDevice, Failure>) -> Result<
    DeviceView,
    Seq<char>,
> {
    match result {
        Ok(r) => Ok(r.identity@),
        Err(f) => Err(f@),
    }
}

impl GatewayDeviceIdentity {
    pub closed spec fn wf(&self) -> bool {
        self.secret@.len() == crypto::SECRET_LEN
    }

    fn from_keys(secret: Vec<u8>, public: &Vec<u8>) -> (identity: Self)
        requires
            secret@.len() == crypto::SECRET_LEN,
        ensures
            identity.wf(),
            identity@ == device_of_keys(secret@, public@),
    {
        GatewayDeviceIdentity {
            device_id: fingerprint(public.as_slice()),
            public_key_raw_base64url: encode_base64url(public.as_slice()),
            secret,
        }
    }

    /// Reads an identity from the documents in which it is kept.
    pub fn load(private_key_pem: &str, public_key_pem: &str) -> (result: Result<Self, Failure>)
        ensures
            device_result(result) == device_of_pems(private_key_pem@, public_key_pem@),
            result matches Ok(identity) ==> identity.wf(),
    {
        let secret = match secret_from_pem(private_key_pem) {
            Ok(secret) => secret,
            Err(message) => return Err(Failure { message }),
        };
        let public = match public_from_pem(public_key_pem) {
            Ok(public) => public,
            Err(message) => return Err(Failure { message }),
        };
        Ok(GatewayDeviceIdentity::from_keys(secret, &public))
    }

    /// Makes an identity of a secret key that nobody else knows. What is read back from its
    /// documents is the identity that was made.
    pub fn create(secret: Vec<u8>) -> (made: NewDeviceIdentity)
        requires
            secret@.len() == crypto::SECRET_LEN,
        ensures
            made.identity.wf(),
            made.identity@ == device_of_keys(secret@, crypto::ed25519_public(secret@)),
            made.documents.private_key_pem@ == crypto::secret_pem(secret@),
            made.documents.public_key_pem@ == crypto::public_pem(secret@),
            device_of_pems(
                made.documents.private_key_pem@,
                made.documents.public_key_pem@,
            ) == Ok::<DeviceView, Seq<char>>(made.identity@),
    {
        let private_key_pem = secret_to_pem(&secret);
        let public_key_pem = public_to_pem(&secret);
        let public = public_key(&secret);
        NewDeviceIdentity {
            identity: GatewayDeviceIdentity::from_keys(secret, &public),
            documents: KeyDocuments { private_key_pem, public_key_pem },
        }
    }

    /// The identity in the documents that there are, or else one made of a secret key that nobody
    /// else knows; its documents are then to be kept, and give it back when they are read.
    pub fn load_or_create(documents: Option<KeyDocuments>, secret: Vec<u8>) -> (result: Result<
        ResolvedDevice,
        Failure,
    >)
        requires
            secret@.len() == crypto::SECRET_LEN,
        ensures
            resolved_device(result) == device_or_new(documents, secret@),
            result matches Ok(r) ==> r.identity.wf() && (r.new_documents is Some
                <==> documents is None),
            result matches Ok(r) ==> r.new_documents is Some ==> device_or_new(
                r.new_documents,
                secret@,
            ) == Ok::<DeviceView, Seq<char>>(r.identity@),
    {
        match documents {
            Some(d) => match GatewayDeviceIdentity::load(
                d.private_key_pem.as_str(),
                d.public_key_pem.as_str(),
            ) {
                Ok(identity) => Ok(ResolvedDevice { identity, new_documents: None }),
                Err(f) => Err(f),
            },
            None => {
                let made = GatewayDeviceIdentity::create(secret);
                Ok(
                    ResolvedDevice {
                        identity: made.identity,
                        new_documents: Some(made.documents),
                    },
                )
            },
        }
    }

    /// The name of the device: the fingerprint of its public key.
    pub fn device_id(&self) -> (id: &str)
        ensures
            id@ == self@.device_id,
    {
        self.device_id.as_str()
    }

    /// The public key in URL-safe Base64.
    pub fn public_key(&self) -> (key: &str)
        ensures
            key@ == self@.public_key,
    {
        self.public_key_raw_base64url.as_str()
    }

    /// The signature of a text in URL-safe Base64.
    pub fn sign_payload(&self, payload: &str) -> (signature: String)
        requires
            self.wf(),
        ensures
            signature@ == crypto::base64url(
                crypto::ed25519_signature(self@.secret, vstd::utf8::encode_utf8(payload@)),
            ),
    {
        encode_base64url(sign(&self.secret, payload.as_bytes()).as_slice())
    }
}

// ---------------------------------------------------------------------------
// Laws
// ---------------------------------------------------------------------------

/// A device is known by its public key: its id is the SHA-256 digest of the key in hexadecimal digits.
/// It is the device of the documents if there are any, whatever new secret is at hand.
pub proof fn law_device_is_known_by_its_key(
    documents: KeyDocuments,
    secret: Seq<u8>,
    public: Seq<u8>,
    fresh: Seq<u8>,
)
    ensures
        device_of_keys(secret, public).device_id == text::hex_lower(crypto::sha256_digest(public)),
        device_of_keys(secret, public).public_key == crypto::base64url(public),
        device_of_keys(secret, public).secret == secret,
        crypto::pem_secret(documents.private_key_pem@) == Ok::<Seq<u8>, Seq<char>>(secret)
            && crypto::pem_public(documents.public_key_pem@) == Ok::<Seq<u8>, Seq<char>>(public)
            ==> (device_or_new(Some(documents), fresh) matches Ok(device) && device.secret == secret
            && device.public_key == crypto::base64url(public)),
        crypto::pem_secret(documents.private_key_pem@) is Err || crypto::pem_public(
            documents.public_key_pem@,
        ) is Err ==> device_or_new(Some(documents), fresh) is Err,
        device_or_new(None, fresh) matches Ok(device) && device.secret == fresh && device.public_key
            == crypto::base64url(crypto::ed25519_public(fresh)),
{
}

} // verus!
