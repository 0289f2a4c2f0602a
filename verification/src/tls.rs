//! The certificate and the key of a server that speaks TLS.
//!
//! Both come in the form of PEM files: lines of text around the bytes of each
//! section. A server needs at least one certificate and exactly one key, the first
//! in its file.
use vstd::prelude::*;

verus! {

/// A key in the form of PKCS #1.
pub const KEY_PKCS1: u8 = 1;

/// A key in the form of SEC 1.
pub const KEY_SEC1: u8 = 2;

/// A key in the form of PKCS #8.
pub const KEY_PKCS8: u8 = 8;

/// Whether a number stands for the form of a key.
pub open spec fn is_key_form(form: u8) -> bool {
    form == KEY_PKCS1 || form == KEY_SEC1 || form == KEY_PKCS8
}

/// The byte with which each line round a section begins.
pub const DASH: u8 = 45;

/// Why a server cannot speak TLS.
#[derive(Clone, Debug, PartialEq, Eq)]
pub enum TlsError {
    /// The file of the certificates cannot be read as PEM.
    BadCertificates { why: String },
    /// There is no certificate in the file.
    NoCertificates,
    /// The file of the key cannot be read as PEM.
    BadKey { why: String },
    /// There is no key in the file.
    NoKey,
}

/// What a [`TlsError`] says.
pub enum TlsErrorView {
    BadCertificates { why: Seq<char> },
    NoCertificates,
    BadKey { why: Seq<char> },
    NoKey,
}

impl View for TlsError {
    type V = TlsErrorView;

    open spec fn view(&self) -> TlsErrorView {
        match *self {
            TlsError::BadCertificates { why } => TlsErrorView::BadCertificates { why: why@ },
            TlsError::NoCertificates => TlsErrorView::NoCertificates,
            TlsError::BadKey { why } => TlsErrorView::BadKey { why: why@ },
            TlsError::NoKey => TlsErrorView::NoKey,
        }
    }
}

// ---- The outside parser ----------------------------------------------------------------

/// The certificates in a PEM file, in their order, or what is wrong with the file.
pub uninterp spec fn pem_certificates(pem: Seq<u8>) -> Result<Seq<Seq<u8>>, Seq<char>>;

/// The first key in a PEM file, by its form and its bytes, if there is one, or what
/// is wrong with the file.
pub uninterp spec fn pem_key(pem: Seq<u8>) -> Result<Option<(u8, Seq<u8>)>, Seq<char>>;

/// What each of a list of certificates says.
pub open spec fn der_views(v: Seq<Vec<u8>>) -> Seq<Seq<u8>> {
    Seq::new(v.len(), |k: int| v[k]@)
}

/// What the parser says of certificates.
pub open spec fn certificates_view(r: Result<Vec<Vec<u8>>, String>) -> Result<
    Seq<Seq<u8>>,
    Seq<char>,
> {
    match r {
        Ok(v) => Ok(der_views(v@)),
        Err(why) => Err(why@),
    }
}

/// What the parser says of a key.
pub open spec fn key_view(r: Result<Option<(u8, Vec<u8>)>, String>) -> Result<
    Option<(u8, Seq<u8>)>,
    Seq<char>,
> {
    match r {
        Ok(Some((form, der))) => Ok(Some((form, der@))),
        Ok(None) => Ok(None),
        Err(why) => Err(why@),
    }
}

/// Calls `rustls_pemfile::certs` on the bytes of a file and collects what it yields,
/// up to the first error, whose text is kept. Claimed is that the bytes alone decide
/// what comes back, and that a file without a dash, with which every section begins,
/// has no certificates. Which sections are certificates, and what their bytes are, is
/// not said.
#[verifier::external_body]
fn parse_certificates(pem: &[u8]) -> (r: Result<Vec<Vec<u8>>, String>)
    ensures
        certificates_view(r) == pem_certificates(pem@),
        !pem@.contains(DASH) ==> r is Ok && (r->Ok_0)@.len() == 0,
{
    let mut rd = pem;
    rustls_pemfile::certs(&mut rd)
        .map(|c| c.map(|der| der.to_vec()).map_err(|e| e.to_string()))
        .collect()
}

/// Calls `rustls_pemfile::private_key` on the bytes of a file. A key is handed out as
/// its form and its bytes: 1 for PKCS #1, 2 for SEC 1, 8 for PKCS #8. Of an error the
/// text is kept. Claimed is that the bytes alone decide what comes back, that a key
/// has one of these three forms, the only ones that the function makes, and that a
/// file without a dash has no key. Which section is a key, and what its bytes are, is
/// not said.
#[verifier::external_body]
fn parse_key(pem: &[u8]) -> (r: Result<Option<(u8, Vec<u8>)>, String>)
    ensures
        key_view(r) == pem_key(pem@),
        r is Ok && r->Ok_0 is Some ==> is_key_form((r->Ok_0->Some_0).0),
        !pem@.contains(DASH) ==> r is Ok && r->Ok_0 is None,
{
    let mut rd = pem;
    let key = rustls_pemfile::private_key(&mut rd).map_err(|e| e.to_string())?;
    Ok(key.map(|k| match &k {
        rustls::pki_types::PrivateKeyDer::Pkcs1(d) => (1, d.secret_pkcs1_der().to_vec()),
        rustls::pki_types::PrivateKeyDer::Sec1(d) => (2, d.secret_sec1_der().to_vec()),
        rustls::pki_types::PrivateKeyDer::Pkcs8(d) => (8, d.secret_pkcs8_der().to_vec()),
        _ => (0, k.secret_der().to_vec()),
    }))
}

// ---- What a server makes of it ---------------------------------------------------------

/// The certificates of a server, by what the parser says of their file.
pub open spec fn usable_certificates(parsed: Result<Seq<Seq<u8>>, Seq<char>>) -> Result<
    Seq<Seq<u8>>,
    TlsErrorView,
> {
    match parsed {
        Err(why) => Err(TlsErrorView::BadCertificates { why }),
        Ok(v) => if v.len() == 0 {
            Err(TlsErrorView::NoCertificates)
        } else {
            Ok(v)
        },
    }
}

/// The key of a server, by what the parser says of its file.
pub open spec fn usable_key(parsed: Result<Option<(u8, Seq<u8>)>, Seq<char>>) -> Result<
    (u8, Seq<u8>),
    TlsErrorView,
> {
    match parsed {
        Err(why) => Err(TlsErrorView::BadKey { why }),
        Ok(None) => Err(TlsErrorView::NoKey),
        Ok(Some(key)) => Ok(key),
    }
}

/// Whether certificates, or why there are none, are as said.
pub open spec fn certificates_are(
    r: Result<Vec<Vec<u8>>, TlsError>,
    said: Result<Seq<Seq<u8>>, TlsErrorView>,
) -> bool {
    match r {
        Ok(v) => said == Ok::<Seq<Seq<u8>>, TlsErrorView>(der_views(v@)),
        Err(e) => said == Err::<Seq<Seq<u8>>, TlsErrorView>(e@),
    }
}

/// Whether a key, or why there is none, is as said.
pub open spec fn key_is(
    r: Result<(u8, Vec<u8>), TlsError>,
    said: Result<(u8, Seq<u8>), TlsErrorView>,
) -> bool {
    match r {
        Ok((form, der)) => said == Ok::<(u8, Seq<u8>), TlsErrorView>((form, der@)),
        Err(e) => said == Err::<(u8, Seq<u8>), TlsErrorView>(e@),
    }
}

/// The certificates of a server, by what the parser says of their file.
pub fn accept_certificates(parsed: Result<Vec<Vec<u8>>, String>) -> (r: Result<
    Vec<Vec<u8>>,
    TlsError,
>)
    ensures
        certificates_are(r, usable_certificates(certificates_view(parsed))),
{
    match parsed {
        Err(why) => Err(TlsError::BadCertificates { why }),
        Ok(v) => if v.len() == 0 {
            Err(TlsError::NoCertificates)
        } else {
            Ok(v)
        },
    }
}

/// The key of a server, by what the parser says of its file.
pub fn accept_key(parsed: Result<Option<(u8, Vec<u8>)>, String>) -> (r: Result<
    (u8, Vec<u8>),
    TlsError,
>)
    ensures
        key_is(r, usable_key(key_view(parsed))),
{
    match parsed {
        Err(why) => Err(TlsError::BadKey { why }),
        Ok(None) => Err(TlsError::NoKey),
        Ok(Some(key)) => Ok(key),
    }
}

/// The certificates in the PEM file of a server: all of them, in their order.
pub fn tls_certificates(pem: &[u8]) -> (r: Result<Vec<Vec<u8>>, TlsError>)
    ensures
        certificates_are(r, usable_certificates(pem_certificates(pem@))),
        !pem@.contains(DASH) ==> r == Err::<Vec<Vec<u8>>, TlsError>(TlsError::NoCertificates),
{
    accept_certificates(parse_certificates(pem))
}

/// The key in the PEM file of a server: the first one, by its form and its bytes.
pub fn tls_key(pem: &[u8]) -> (r: Result<(u8, Vec<u8>), TlsError>)
    ensures
        key_is(r, usable_key(pem_key(pem@))),
        r matches Ok(key) ==> is_key_form(key.0),
        !pem@.contains(DASH) ==> r == Err::<(u8, Vec<u8>), TlsError>(TlsError::NoKey),
{
    accept_key(parse_key(pem))
}

/// A server that has its certificates has at least one.
pub proof fn certificates_are_never_empty(parsed: Result<Seq<Seq<u8>>, Seq<char>>)
    ensures
        usable_certificates(parsed) matches Ok(v) ==> v.len() > 0 && parsed == Ok::<
            Seq<Seq<u8>>,
            Seq<char>,
        >(v),
{
}

/// What is refused says why: bytes that are no certificates or no key, with the reason,
/// and bytes that hold none. What is accepted is handed on as it is.
pub proof fn refusals_say_why(why: Seq<char>, v: Seq<Seq<u8>>, key: (u8, Seq<u8>))
    ensures
        usable_certificates(Err(why)) == Err::<Seq<Seq<u8>>, TlsErrorView>(
            TlsErrorView::BadCertificates { why },
        ),
        v.len() == 0 ==> usable_certificates(Ok(v)) == Err::<Seq<Seq<u8>>, TlsErrorView>(
            TlsErrorView::NoCertificates,
        ),
        v.len() > 0 ==> usable_certificates(Ok(v)) == Ok::<Seq<Seq<u8>>, TlsErrorView>(v),
        usable_key(Err(why)) == Err::<(u8, Seq<u8>), TlsErrorView>(TlsErrorView::BadKey { why }),
        usable_key(Ok(None)) == Err::<(u8, Seq<u8>), TlsErrorView>(TlsErrorView::NoKey),
        usable_key(Ok(Some(key))) == Ok::<(u8, Seq<u8>), TlsErrorView>(key),
{
}

} // verus!
