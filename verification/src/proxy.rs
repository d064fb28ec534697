//! What a tunnelling proxy and the server behind it decide: which protocols
//! are offered, which one serves a connection, and how a tunnel is asked for
//! and granted.
use vstd::prelude::*;
use vstd::string::*;

verus! {

/// `h2`, as the protocol is named when a connection is negotiated.
pub open spec fn h2() -> Seq<u8> {
    seq![104u8, 50u8]
}

/// `http/1.1`, as the protocol is named when a connection is negotiated.
pub open spec fn http11() -> Seq<u8> {
    seq![104u8, 116u8, 116u8, 112u8, 47u8, 49u8, 46u8, 49u8]
}

/// The protocols that a server offers, the preferred one first: always
/// `http/1.1`, and before it `h2` where that is allowed.
pub open spec fn offered(allow_h2: bool) -> Seq<Seq<u8>> {
    if allow_h2 {
        seq![h2(), http11()]
    } else {
        seq![http11()]
    }
}

fn h2_name() -> (name: Vec<u8>)
    ensures
        name@ == h2(),
{
    let mut name: Vec<u8> = Vec::new();
    name.push(104);
    name.push(50);
    assert(name@ =~= h2());
    name
}

fn http11_name() -> (name: Vec<u8>)
    ensures
        name@ == http11(),
{
    let mut name: Vec<u8> = Vec::new();
    name.push(104);
    name.push(116);
    name.push(116);
    name.push(112);
    name.push(47);
    name.push(49);
    name.push(46);
    name.push(49);
    assert(name@ =~= http11());
    name
}

/// The protocols that a server offers, the preferred one first.
pub fn alpn_protocols(allow_h2: bool) -> (protocols: Vec<Vec<u8>>)
    ensures
        protocols.deep_view() == offered(allow_h2),
{
    let mut protocols: Vec<Vec<u8>> = Vec::new();
    if allow_h2 {
        protocols.push(h2_name());
    }
    protocols.push(http11_name());
    assert(protocols.deep_view() =~~= offered(allow_h2));
    protocols
}

/// Whether the bytes at the head of `bytes` are those of `word`.
pub open spec fn begins_with(bytes: Seq<u8>, word: Seq<u8>) -> bool {
    word.len() <= bytes.len() && bytes.take(word.len() as int) == word
}

fn begins(bytes: &[u8], word: &Vec<u8>) -> (b: bool)
    ensures
        b == begins_with(bytes@, word@),
{
    if bytes.len() < word.len() {
        return false;
    }
    let mut i: usize = 0;
    while i < word.len()
        invariant
            i <= word@.len() <= bytes@.len(),
            forall|k: int| 0 <= k < i ==> bytes@[k] == word@[k],
        decreases word.len() - i,
    {
        if bytes[i] != word[i] {
            assert(bytes@.take(word@.len() as int)[i as int] != word@[i as int]);
            return false;
        }
        i += 1;
    }
    assert(bytes@.take(word@.len() as int) =~= word@);
    true
}

/// Whether a connection is served as HTTP/2: where `h2` was negotiated for
/// it, and nothing else.
pub fn serves_http2(negotiated: Option<&[u8]>) -> (b: bool)
    ensures
        b == (negotiated matches Some(name) && name@ == h2()),
{
    match negotiated {
        Some(name) => {
            let word = h2_name();
            let b = name.len() == 2 && begins(name, &word);
            proof {
                if name@.len() == 2 {
                    assert(name@.take(2) =~= name@);
                }
            }
            b
        },
        None => false,
    }
}

/// The forms in which the private key of a server is written.
#[derive(Debug, PartialEq, Eq, Structural, Clone, Copy)]
pub enum KeyForm {
    /// An RSA key, as PKCS#1 writes it.
    Pkcs1,
    /// An elliptic-curve key, as SEC1 writes it.
    Sec1,
    /// A key of any algorithm, as PKCS#8 writes it.
    Pkcs8,
}

/// What stands in the sequence that a key is written as: what follows the
/// tag of the sequence and the bytes of its length. A key is a sequence, and
/// the second byte says how many bytes of length follow it.
pub open spec fn key_body(der: Seq<u8>) -> Option<Seq<u8>> {
    if der.len() < 2 || der[0] != 0x30 {
        None
    } else {
        let skip = if der[1] >= 128 {
            2 + (der[1] - 128)
        } else {
            2
        };
        if skip <= der.len() {
            Some(der.skip(skip))
        } else {
            None
        }
    }
}

/// The form of a key, read off its first bytes: every form begins with a
/// version, an integer of one byte. In PKCS#8 a sequence follows the
/// version; of the others, PKCS#1 has version 0 and SEC1 version 1. What
/// begins otherwise is no key.
pub open spec fn key_form_of(der: Seq<u8>) -> Option<KeyForm> {
    match key_body(der) {
        None => None,
        Some(body) => if body.len() >= 4 && body[0] == 0x02 && body[1] == 0x01 && body[3]
            == 0x30 {
            Some(KeyForm::Pkcs8)
        } else if begins_with(body, seq![0x02u8, 0x01u8, 0x00u8]) {
            Some(KeyForm::Pkcs1)
        } else if begins_with(body, seq![0x02u8, 0x01u8, 0x01u8]) {
            Some(KeyForm::Sec1)
        } else {
            None
        },
    }
}

/// Calls `PrivateKeyDer::try_from`, which `webpki` hands on from
/// `rustls-pki-types`, on the bytes of a key. It is taken on trust that the
/// call tells the forms apart by the first bytes as `key_form_of` says, and
/// refuses what has none of the forms.
#[verifier::external_body]
fn read_key_form(der: &[u8]) -> (r: Option<KeyForm>)
    ensures
        r == key_form_of(der@),
{
    match webpki::types::PrivateKeyDer::try_from(der) {
        Ok(webpki::types::PrivateKeyDer::Pkcs1(_)) => Some(KeyForm::Pkcs1),
        Ok(webpki::types::PrivateKeyDer::Sec1(_)) => Some(KeyForm::Sec1),
        Ok(webpki::types::PrivateKeyDer::Pkcs8(_)) => Some(KeyForm::Pkcs8),
        _ => None,
    }
}

/// What a server is set up with.
pub struct Setup {
    pub key_form: KeyForm,
    pub protocols: Vec<Vec<u8>>,
}

/// What a server is set up with: the form of its key and the protocols it
/// offers. A server cannot be set up with a key of no known form.
pub fn server_setup(key: &[u8], allow_h2: bool) -> (r: Option<Setup>)
    ensures
        match r {
            Some(setup) => key_form_of(key@) == Some(setup.key_form) && setup.protocols.deep_view()
                == offered(allow_h2),
            None => key_form_of(key@) is None,
        },
{
    match read_key_form(key) {
        Some(key_form) => Some(Setup { key_form, protocols: alpn_protocols(allow_h2) }),
        None => None,
    }
}

/// A key of a known form is a sequence that holds at least a version: it
/// begins with the tag of a sequence and has five bytes or more.
pub proof fn lemma_key_is_sequence(der: Seq<u8>)
    requires
        key_form_of(der) is Some,
    ensures
        der.len() >= 5,
        der[0] == 0x30,
{
}

/// `CONNECT`, the method that asks a proxy for a tunnel.
pub open spec fn connect_word() -> Seq<u8> {
    seq![67u8, 79u8, 78u8, 78u8, 69u8, 67u8, 84u8]
}

/// Whether a request asks for a tunnel: it begins with `CONNECT`.
pub fn is_connect(request: &[u8]) -> (b: bool)
    ensures
        b == begins_with(request@, connect_word()),
{
    let mut word: Vec<u8> = Vec::new();
    word.push(67);
    word.push(79);
    word.push(78);
    word.push(78);
    word.push(69);
    word.push(67);
    word.push(84);
    assert(word@ =~= connect_word());
    begins(request, &word)
}

/// What a proxy answers when it grants a tunnel.
pub fn tunnel_granted() -> (answer: &'static str)
    ensures
        answer@ == "HTTP/1.1 200 OK\r\n\r\n"@,
{
    "HTTP/1.1 200 OK\r\n\r\n"
}

/// The address under which a client reaches a proxy: `http://` or, for a
/// proxy that speaks TLS, `https://`, and where the proxy listens.
pub open spec fn proxy_url_of(https: bool, address: Seq<char>) -> Seq<char> {
    if https {
        "https://"@ + address
    } else {
        "http://"@ + address
    }
}

/// The address under which a client reaches a proxy.
pub fn proxy_url(https: bool, address: &str) -> (url: String)
    ensures
        url@ == proxy_url_of(https, address@),
{
    let mut url = if https {
        String::from_str("https://")
    } else {
        String::from_str("http://")
    };
    url.append(address);
    url
}

/// The address of a path on a server that speaks TLS.
pub fn server_url(address: &str, path: &str) -> (url: String)
    ensures
        url@ == "https://"@ + address@ + path@,
{
    let mut url = String::from_str("https://");
    url.append(address);
    url.append(path);
    url
}

} // verus!
