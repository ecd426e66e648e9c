//! Certificates and keys of the TLS service.
use vstd::prelude::*;
use vstd::string::*;
use crate::error::{ServerError, ServerErrorView};

verus! {

/// A private key in DER, by its format.
pub enum KeyDer {
    Pkcs1(Vec<u8>),
    Sec1(Vec<u8>),
    Pkcs8(Vec<u8>),
}

/// What a private key is.
#[verifier::ext_equal]
pub enum KeyView {
    Pkcs1(Seq<u8>),
    Sec1(Seq<u8>),
    Pkcs8(Seq<u8>),
}

impl View for KeyDer {
    type V = KeyView;

    open spec fn view(&self) -> KeyView {
        match self {
            KeyDer::Pkcs1(der) => KeyView::Pkcs1(der@),
            KeyDer::Sec1(der) => KeyView::Sec1(der@),
            KeyDer::Pkcs8(der) => KeyView::Pkcs8(der@),
        }
    }
}

/// The views of a list of certificates.
pub open spec fn certs_model(certs: Seq<Vec<u8>>) -> Seq<Seq<u8>> {
    certs.map_values(|cert: Vec<u8>| cert@)
}

/// What `rustls_pemfile` reads out of a PEM text as certificates: their DER
/// forms, or the message of the error.
pub uninterp spec fn pem_certs(pem: Seq<u8>) -> Result<Seq<Seq<u8>>, Seq<char>>;

/// What `rustls_pemfile` reads out of a PEM text as a private key: the first one,
/// nothing where there is none, or the message of the error.
pub uninterp spec fn pem_key(pem: Seq<u8>) -> Result<Option<KeyView>, Seq<char>>;

/// `rustls_pemfile::certs` reads the certificates of a PEM text, up to the first
/// error.
#[verifier::external_body]
fn read_certs(pem: &[u8]) -> (certs: Result<Vec<Vec<u8>>, String>)
    ensures
        match certs {
            Ok(list) => pem_certs(pem@) == Ok::<Seq<Seq<u8>>, Seq<char>>(certs_model(list@)),
            Err(message) => pem_certs(pem@) == Err::<Seq<Seq<u8>>, Seq<char>>(message@),
        },
{
    let mut reader = pem;
    rustls_pemfile::certs(&mut reader)
        .map(|cert| cert.map(|der| der.as_ref().to_vec()).map_err(|error| error.to_string()))
        .collect()
}

/// `rustls_pemfile::private_key` reads the first private key of a PEM text.
#[verifier::external_body]
fn read_key(pem: &[u8]) -> (key: Result<Option<KeyDer>, String>)
    ensures
        match key {
            Ok(Some(k)) => pem_key(pem@) == Ok::<Option<KeyView>, Seq<char>>(Some(k@)),
            Ok(None) => pem_key(pem@) == Ok::<Option<KeyView>, Seq<char>>(None),
            Err(message) => pem_key(pem@) == Err::<Option<KeyView>, Seq<char>>(message@),
        },
{
    let mut reader = pem;
    let key = rustls_pemfile::private_key(&mut reader).map_err(|error| error.to_string())?;
    Ok(key.map(|der| match der {
        rustls_pki_types::PrivateKeyDer::Pkcs1(k) => KeyDer::Pkcs1(k.secret_pkcs1_der().to_vec()),
        rustls_pki_types::PrivateKeyDer::Sec1(k) => KeyDer::Sec1(k.secret_sec1_der().to_vec()),
        other => KeyDer::Pkcs8(other.secret_der().to_vec()),
    }))
}

/// The certificates of a PEM text, or an error.
pub open spec fn certs_view(parsed: Result<Seq<Seq<u8>>, Seq<char>>) -> Result<
    Seq<Seq<u8>>,
    ServerErrorView,
> {
    match parsed {
        Ok(certs) => Ok(certs),
        Err(message) => Err(ServerErrorView::Io(message)),
    }
}

/// The private key of a PEM text out of a file, or an error.
pub open spec fn key_view(parsed: Result<Option<KeyView>, Seq<char>>, path: Seq<char>) -> Result<
    KeyView,
    ServerErrorView,
> {
    match parsed {
        Ok(Some(key)) => Ok(key),
        Ok(None) => Err(ServerErrorView::Tls("No private key found in "@ + path)),
        Err(message) => Err(ServerErrorView::Io(message)),
    }
}

/// The view of loaded certificates or of an error.
pub open spec fn certs_outcome(certs: Result<Vec<Vec<u8>>, ServerError>) -> Result<
    Seq<Seq<u8>>,
    ServerErrorView,
> {
    match certs {
        Ok(list) => Ok(certs_model(list@)),
        Err(error) => Err(error@),
    }
}

/// The view of a loaded key or of an error.
pub open spec fn key_outcome(key: Result<KeyDer, ServerError>) -> Result<
    KeyView,
    ServerErrorView,
> {
    match key {
        Ok(k) => Ok(k@),
        Err(error) => Err(error@),
    }
}

/// Reads certificates out of a PEM text.
pub fn load_certs(pem: &[u8]) -> (certs: Result<Vec<Vec<u8>>, ServerError>)
    ensures
        certs_outcome(certs) == certs_view(pem_certs(pem@)),
{
    match read_certs(pem) {
        Ok(list) => Ok(list),
        Err(message) => Err(ServerError::Io(message)),
    }
}

/// The key that was found in a file, or an error.
pub fn found_key(key: Option<KeyDer>, path: &str) -> (result: Result<KeyDer, ServerError>)
    ensures
        key_outcome(result) == key_view(
            Ok(
                match key {
                    Some(k) => Some(k@),
                    None => None,
                },
            ),
            path@,
        ),
{
    match key {
        Some(k) => Ok(k),
        None => {
            let mut message = "No private key found in ".to_owned();
            message.append(path);
            Err(ServerError::Tls(message))
        },
    }
}

/// Reads a private key out of the PEM text of a file.
pub fn load_key(pem: &[u8], path: &str) -> (key: Result<KeyDer, ServerError>)
    ensures
        key_outcome(key) == key_view(pem_key(pem@), path@),
{
    match read_key(pem) {
        Ok(key) => found_key(key, path),
        Err(message) => Err(ServerError::Io(message)),
    }
}

/// Accepts the client certificates that it was made with, and no others.
pub struct ExactClientCertVerifier {
    pub allowed_der: Vec<Vec<u8>>,
}

impl View for ExactClientCertVerifier {
    type V = Seq<Seq<u8>>;

    open spec fn view(&self) -> Seq<Seq<u8>> {
        certs_model(self.allowed_der@)
    }
}

/// Whether two sequences of bytes are the same.
fn same_bytes(a: &[u8], b: &[u8]) -> (same: bool)
    ensures
        same == (a@ == b@),
{
    if a.len() != b.len() {
        return false;
    }
    let mut i: usize = 0;
    while i < a.len()
        invariant
            a@.len() == b@.len(),
            i <= a@.len(),
            forall|j: int| 0 <= j < i ==> a@[j] == b@[j],
        decreases a@.len() - i,
    {
        if a[i] != b[i] {
            return false;
        }
        i = i + 1;
    }
    assert(a@ =~= b@);
    true
}

impl ExactClientCertVerifier {
    /// A verifier that accepts the given certificates.
    pub fn new(certs: Vec<Vec<u8>>) -> (verifier: ExactClientCertVerifier)
        ensures
            verifier@ == certs_model(certs@),
    {
        ExactClientCertVerifier { allowed_der: certs }
    }

    /// Whether a certificate is accepted: if and only if it is one of those that
    /// the verifier was made with, byte for byte.
    pub fn allows(&self, end_entity: &[u8]) -> (yes: bool)
        ensures
            yes == self@.contains(end_entity@),
    {
        let mut i: usize = 0;
        while i < self.allowed_der.len()
            invariant
                i <= self.allowed_der@.len(),
                forall|j: int| 0 <= j < i ==> (#[trigger] self@[j]) != end_entity@,
            decreases self.allowed_der@.len() - i,
        {
            assert(self@[i as int] == self.allowed_der@[i as int]@);
            if same_bytes(self.allowed_der[i].as_slice(), end_entity) {
                return true;
            }
            i = i + 1;
        }
        false
    }
}

} // verus!
