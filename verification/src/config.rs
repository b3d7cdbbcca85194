//! Server settings, and the key and certificates for TLS read from PEM text.

use vstd::prelude::*;

verus! {

/// A section of a PEM file.
#[derive(Debug, Clone)]
pub enum PemItem {
    Certificate(Vec<u8>),
    RsaKey(Vec<u8>),
    Pkcs8Key(Vec<u8>),
    EcKey(Vec<u8>),
    Crl(Vec<u8>),
    /// A kind of section that this version of the reader does not know.
    Other,
}

/// A PEM section as a kind and its DER bytes: 0 for a certificate, 1 for
/// an RSA key, 2 for a PKCS#8 key, 3 for an EC key, 4 for a revocation
/// list, 5 for any other kind.
pub open spec fn item_view(item: PemItem) -> (u8, Seq<u8>) {
    match item {
        PemItem::Certificate(d) => (0u8, d@),
        PemItem::RsaKey(d) => (1u8, d@),
        PemItem::Pkcs8Key(d) => (2u8, d@),
        PemItem::EcKey(d) => (3u8, d@),
        PemItem::Crl(d) => (4u8, d@),
        PemItem::Other => (5u8, Seq::empty()),
    }
}

/// The views of a list of sections.
pub open spec fn items_view(items: Seq<PemItem>) -> Seq<(u8, Seq<u8>)> {
    items.map_values(|i: PemItem| item_view(i))
}

/// What `rustls_pemfile::read_all` reads from `bytes`: the sections in
/// order, or `None` where it reports an error (a section without its end
/// marker, bad base64). The PEM grammar is the crate's; it is named here
/// and not written out.
pub uninterp spec fn pem_sections(bytes: Seq<u8>) -> Option<Seq<(u8, Seq<u8>)>>;

/// Reads the PEM sections of `bytes`.
/// Trusted: calls `rustls_pemfile::read_all` on the bytes and converts each
/// `Item` to a `PemItem` of the same kind. The result is named
/// `pem_sections`; nothing more is claimed of it.
#[verifier::external_body]
fn read_sections(bytes: &[u8]) -> (r: Option<Vec<PemItem>>)
    ensures
        match r {
            Some(v) => pem_sections(bytes@) == Some(items_view(v@)),
            None => pem_sections(bytes@) is None,
        },
{
    let mut rd: &[u8] = bytes;
    match rustls_pemfile::read_all(&mut rd) {
        Ok(items) => Some(items.into_iter().map(|i| match i {
            rustls_pemfile::Item::X509Certificate(d) => PemItem::Certificate(d),
            rustls_pemfile::Item::RSAKey(d) => PemItem::RsaKey(d),
            rustls_pemfile::Item::PKCS8Key(d) => PemItem::Pkcs8Key(d),
            rustls_pemfile::Item::ECKey(d) => PemItem::EcKey(d),
            rustls_pemfile::Item::Crl(d) => PemItem::Crl(d),
            _ => PemItem::Other,
        }).collect()),
        Err(_) => None,
    }
}

/// A private key and the certificates that go with it, as DER bytes.
#[derive(Clone, Debug)]
pub struct KeyReader {
    pub key: Option<Vec<u8>>,
    pub certs: Vec<Vec<u8>>,
}

/// The view of an optional byte vector.
pub open spec fn opt_bytes(o: Option<Vec<u8>>) -> Option<Seq<u8>> {
    match o {
        Some(v) => Some(v@),
        None => None,
    }
}

/// The views of a list of byte vectors.
pub open spec fn bytes_views(v: Seq<Vec<u8>>) -> Seq<Seq<u8>> {
    v.map_values(|b: Vec<u8>| b@)
}

/// The key after reading `items` with `key` in hand: the last key among
/// them, or `key` where there is none.
pub open spec fn key_after(key: Option<Seq<u8>>, items: Seq<(u8, Seq<u8>)>) -> Option<Seq<u8>>
    decreases items.len(),
{
    if items.len() == 0 {
        key
    } else {
        let k = key_after(key, items.drop_last());
        if items.last().0 == 1 || items.last().0 == 2 || items.last().0 == 3 {
            Some(items.last().1)
        } else {
            k
        }
    }
}

/// The certificates among `items`, in order.
pub open spec fn certs_in(items: Seq<(u8, Seq<u8>)>) -> Seq<Seq<u8>>
    decreases items.len(),
{
    if items.len() == 0 {
        Seq::empty()
    } else if items.last().0 == 0 {
        certs_in(items.drop_last()).push(items.last().1)
    } else {
        certs_in(items.drop_last())
    }
}

/// Whether every section is a certificate or a key: the reader takes no
/// other kind.
pub open spec fn keys_and_certs(items: Seq<(u8, Seq<u8>)>) -> bool {
    forall|i: int| 0 <= i < items.len() ==> (#[trigger] items[i]).0 <= 3
}

impl KeyReader {
    /// A reader with no key and no certificates.
    pub fn new() -> (r: Self)
        ensures
            r.key is None,
            r.certs@.len() == 0,
    {
        KeyReader { key: None, certs: Vec::new() }
    }

    /// Takes in the sections `items`: certificates are added in order, and
    /// each key replaces the one before. There must be nothing else.
    pub fn read_items(self, items: Vec<PemItem>) -> (r: Self)
        requires
            keys_and_certs(items_view(items@)),
        ensures
            opt_bytes(r.key) == key_after(opt_bytes(self.key), items_view(items@)),
            bytes_views(r.certs@) == bytes_views(self.certs@) + certs_in(items_view(items@)),
    {
        let ghost key0 = opt_bytes(self.key);
        let ghost certs0 = bytes_views(self.certs@);
        let ghost all = items_view(items@);
        let mut out = self;
        let mut i: usize = 0;
        let mut rest = items;
        let mut taken: Vec<PemItem> = Vec::new();
        proof {
            assert(items_view(taken@) =~= all.take(0));
            assert(bytes_views(out.certs@) =~= certs0 + certs_in(all.take(0)));
        }
        while i < rest.len()
            invariant
                rest@ == items@,
                all == items_view(items@),
                keys_and_certs(all),
                0 <= i <= rest@.len(),
                opt_bytes(out.key) == key_after(key0, all.take(i as int)),
                bytes_views(out.certs@) == certs0 + certs_in(all.take(i as int)),
            decreases rest@.len() - i,
        {
            proof {
                assert(all.take(i + 1).drop_last() =~= all.take(i as int));
                assert(all.take(i + 1).last() == item_view(rest@[i as int]));
            }
            match &rest[i] {
                PemItem::Certificate(d) => {
                    let c = d.clone();
                    proof {
                        assert(bytes_views(out.certs@.push(c)) =~= bytes_views(out.certs@).push(c@));
                    }
                    out.certs.push(c);
                },
                PemItem::RsaKey(d) => out.key = Some(d.clone()),
                PemItem::Pkcs8Key(d) => out.key = Some(d.clone()),
                PemItem::EcKey(d) => out.key = Some(d.clone()),
                _ => {
                    proof {
                        assert(all[i as int].0 <= 3);
                    }
                },
            }
            i += 1;
        }
        proof {
            assert(all.take(rest@.len() as int) =~= all);
        }
        out
    }

    /// Whether `read_pem` can read `input`: the PEM text reads without
    /// error and holds only certificates and keys.
    pub open spec fn readable(input: Seq<u8>) -> bool {
        pem_sections(input) matches Some(items) && keys_and_certs(items)
    }

    /// Reads the key and certificates of the PEM text `input`.
    pub fn read_pem(self, input: &[u8]) -> (r: Self)
        requires
            Self::readable(input@),
        ensures
            opt_bytes(r.key) == key_after(opt_bytes(self.key), pem_sections(input@)->0),
            bytes_views(r.certs@) == bytes_views(self.certs@) + certs_in(pem_sections(input@)->0),
    {
        match read_sections(input) {
            Some(items) => self.read_items(items),
            None => self,
        }
    }

    /// Reads the key and certificates of `input` where it can be read;
    /// `None` otherwise.
    pub fn try_read_pem(self, input: &[u8]) -> (r: Option<Self>)
        ensures
            r is Some <==> Self::readable(input@),
            r matches Some(k) ==> opt_bytes(k.key) == key_after(opt_bytes(self.key), pem_sections(input@)->0)
                && bytes_views(k.certs@) == bytes_views(self.certs@) + certs_in(pem_sections(input@)->0),
    {
        match read_sections(input) {
            Some(items) => {
                let mut i: usize = 0;
                while i < items.len()
                    invariant
                        pem_sections(input@) == Some(items_view(items@)),
                        0 <= i <= items@.len(),
                        forall|k: int| 0 <= k < i ==> (#[trigger] items_view(items@)[k]).0 <= 3,
                    decreases items@.len() - i,
                {
                    match &items[i] {
                        PemItem::Crl(_) | PemItem::Other => {
                            proof {
                                assert(items_view(items@)[i as int].0 > 3);
                            }
                            return None;
                        },
                        _ => {},
                    }
                    i += 1;
                }
                Some(self.read_items(items))
            },
            None => None,
        }
    }
}

impl KeyReader {
    /// The private key and the certificate that TLS is set up with: the key,
    /// and the first certificate read. Without a certificate or without a
    /// key there is nothing to set up.
    pub fn tls_parts(self) -> (r: Result<(Vec<u8>, Vec<u8>), ()>)
        ensures
            match r {
                Ok((key, cert)) => self.certs@.len() > 0 && (self.key matches Some(k) && key@ == k@) && cert@
                    == self.certs@[0]@,
                Err(_) => self.certs@.len() == 0 || self.key is None,
            },
    {
        if self.certs.len() == 0 {
            return Err(());
        }
        let key_bytes = match self.key {
            Some(k) => k,
            None => return Err(()),
        };
        let mut certs = self.certs;
        let cert_bytes = certs.remove(0);
        Ok((key_bytes, cert_bytes))
    }
}

/// Where and how the server listens, and what it serves.
#[derive(Clone, Debug)]
pub struct Config {
    /// The directory files are served from.
    pub root: String,
    pub port: u16,
    pub host: String,
    pub keypair: Option<KeyReader>,
}

} // verus!
