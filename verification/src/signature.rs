//! The signature of a package.

use crate::text;
use base64::engine::general_purpose::STANDARD;
use base64::Engine;
use minisign_verify::{PublicKey, Signature};
use vstd::prelude::*;
use vstd::string::*;

verus! {

/// The public key that packages are signed for.
pub const UPDATER_PUBKEY: &'static str =
    "dW50cnVzdGVkIGNvbW1lbnQ6IG1pbmlzaWduIHB1YmxpYyBrZXk6IDk1OEM3NDNBNjI2NkExNTkKUldSWm9XWmlPblNNbGFuL1hBY0k3bm1Gc0pGY005c1hOaVdNdXJIdHpwOHB6K3FCMzB1TWtkQUQK";

// ---- outside functions ----------------------------------------------------------------------

/// What `Engine::decode` of base64 makes of a text with the engine `STANDARD`: the bytes, or the
/// text of the error.
pub uninterp spec fn base64_bytes(s: Seq<char>) -> Result<Seq<u8>, Seq<char>>;

/// `Engine::decode` of base64, with the engine `STANDARD`: the result depends on the text alone.
/// Which texts decode, and to which bytes, is left unsaid.
#[verifier::external_body]
fn decode_base64(s: &str) -> (r: Result<Vec<u8>, String>)
    ensures
        match r {
            Ok(b) => base64_bytes(s@) == Ok::<Seq<u8>, Seq<char>>(b@),
            Err(e) => base64_bytes(s@) == Err::<Seq<u8>, Seq<char>>(e@),
        },
{
    STANDARD.decode(s.as_bytes()).map_err(|e| e.to_string())
}

/// The text of the error that `String::from_utf8` of std gives for bytes that are not UTF-8.
pub uninterp spec fn utf8_error(b: Seq<u8>) -> Seq<char>;

/// `String::from_utf8` of std: bytes in UTF-8 become the text that they encode, and others an
/// error whose text depends on the bytes alone.
#[verifier::external_body]
fn text_from_utf8(b: Vec<u8>) -> (r: Result<String, String>)
    ensures
        match r {
            Ok(s) => vstd::utf8::valid_utf8(b@) && s@ == vstd::utf8::decode_utf8(b@),
            Err(e) => !vstd::utf8::valid_utf8(b@) && e@ == utf8_error(b@),
        },
{
    String::from_utf8(b).map_err(|e| e.to_string())
}

/// The text of the error of `PublicKey::decode` of minisign-verify; none for the text of a key.
pub uninterp spec fn key_error(s: Seq<char>) -> Option<Seq<char>>;

/// `PublicKey::decode` of minisign-verify: whether a text is that of a key, and the error if it is
/// not, depend on the text alone. Which texts are keys is left unsaid.
#[verifier::external_body]
fn check_key(s: &str) -> (r: Option<String>)
    ensures
        text::opt_text(r) == key_error(s@),
{
    PublicKey::decode(s).err().map(|e| e.to_string())
}

/// The text of the error of `Signature::decode` of minisign-verify; none for the text of a
/// signature.
pub uninterp spec fn signature_error(s: Seq<char>) -> Option<Seq<char>>;

/// `Signature::decode` of minisign-verify: whether a text is that of a signature, and the error if
/// it is not, depend on the text alone. Which texts are signatures is left unsaid.
#[verifier::external_body]
fn check_signature(s: &str) -> (r: Option<String>)
    ensures
        text::opt_text(r) == signature_error(s@),
{
    Signature::decode(s).err().map(|e| e.to_string())
}

/// The text of the error of `PublicKey::verify` of minisign-verify, for the key and the signature
/// with these texts; none where the signature is one of the data by the key.
pub uninterp spec fn verify_error(
    key: Seq<char>,
    signature: Seq<char>,
    data: Seq<u8>,
    allow_legacy: bool,
) -> Option<Seq<char>>;

/// `PublicKey::verify` of minisign-verify, on what `PublicKey::decode` and `Signature::decode` make
/// of the two texts: the result depends on the texts, the data and the flag alone. Which
/// signatures it accepts is left unsaid.
#[verifier::external_body]
fn verify_data(key: &str, signature: &str, data: &[u8], allow_legacy: bool) -> (r: Option<String>)
    requires
        key_error(key@) is None,
        signature_error(signature@) is None,
    ensures
        text::opt_text(r) == verify_error(key@, signature@, data@, allow_legacy),
{
    let k = PublicKey::decode(key).expect("a key");
    let s = Signature::decode(signature).expect("a signature");
    k.verify(data, &s, allow_legacy).err().map(|e| e.to_string())
}

// ---- texts of keys and signatures -----------------------------------------------------------

/// The text that decoded bytes hold, or what is wrong with them.
pub open spec fn text_of_bytes(b: Result<Seq<u8>, Seq<char>>) -> Result<Seq<char>, Seq<char>> {
    match b {
        Ok(b) => if vstd::utf8::valid_utf8(b) {
            Ok(vstd::utf8::decode_utf8(b))
        } else {
            Err("解码后非 UTF-8 文本: "@ + utf8_error(b))
        },
        Err(e) => Err("base64 解码失败: "@ + e),
    }
}

/// The text of a key or a signature: as it is written, or as it is encoded as a whole.
pub open spec fn minisign_text(s: Seq<char>) -> Result<Seq<char>, Seq<char>> {
    let t = text::trim(s);
    if text::starts_with(t, "untrusted comment:"@) {
        Ok(t)
    } else {
        text_of_bytes(base64_bytes(t))
    }
}

/// A result with its texts as sequences of characters.
pub open spec fn result_text(r: Result<String, String>) -> Result<Seq<char>, Seq<char>> {
    match r {
        Ok(s) => Ok(s@),
        Err(e) => Err(e@),
    }
}

/// Decoded bytes, or an error, as mathematical values.
pub open spec fn result_bytes(r: Result<Vec<u8>, String>) -> Result<Seq<u8>, Seq<char>> {
    match r {
        Ok(b) => Ok(b@),
        Err(e) => Err(e@),
    }
}

/// Takes the text from decoded bytes.
pub fn text_from_base64(decoded: Result<Vec<u8>, String>) -> (r: Result<String, String>)
    ensures
        result_text(r) == text_of_bytes(result_bytes(decoded)),
{
    match decoded {
        Ok(b) => match text_from_utf8(b) {
            Ok(s) => Ok(s),
            Err(e) => {
                let mut out = String::from_str("解码后非 UTF-8 文本: ");
                out.append(e.as_str());
                Err(out)
            },
        },
        Err(e) => {
            let mut out = String::from_str("base64 解码失败: ");
            out.append(e.as_str());
            Err(out)
        },
    }
}

/// Takes the text of a key or a signature: as it is written, or decoded.
pub fn decode_minisign_or_base64(s: &str) -> (r: Result<String, String>)
    ensures
        result_text(r) == minisign_text(s@),
{
    let cs = text::to_chars(s);
    let t = text::trimmed(cs.as_slice());
    let plain = text::to_text(t);
    if text::begins_with(t, "untrusted comment:") {
        Ok(plain)
    } else {
        text_from_base64(decode_base64(plain.as_str()))
    }
}

// ---- verification ---------------------------------------------------------------------------

/// A step of the verification: an error is told with what it is about.
pub open spec fn step_result(what: Seq<char>, error: Option<Seq<char>>) -> Result<(), Seq<char>> {
    match error {
        Some(e) => Err(what + ": "@ + e),
        None => Ok(()),
    }
}

/// Whether a signature is one of the data by the key, or what is wrong: with the key, with the
/// signature, or between them.
pub open spec fn verification(
    pubkey: Seq<char>,
    data: Seq<u8>,
    signature: Seq<char>,
) -> Result<(), Seq<char>> {
    match minisign_text(pubkey) {
        Err(e) => Err(e),
        Ok(k) => match step_result("无法解析公钥"@, key_error(k)) {
            Err(e) => Err(e),
            Ok(_) => match minisign_text(signature) {
                Err(e) => Err(e),
                Ok(s) => match step_result("无法解析签名"@, signature_error(s)) {
                    Err(e) => Err(e),
                    Ok(_) => step_result("签名验证失败"@, verify_error(k, s, data, true)),
                },
            },
        },
    }
}

/// A result without a value, with its text as a sequence of characters.
pub open spec fn unit_result(r: Result<(), String>) -> Result<(), Seq<char>> {
    match r {
        Ok(_) => Ok(()),
        Err(e) => Err(e@),
    }
}

/// Tells an error with what it is about.
pub fn explain(what: &str, error: Option<String>) -> (r: Result<(), String>)
    ensures
        unit_result(r) == step_result(what@, text::opt_text(error)),
{
    match error {
        Some(e) => {
            let mut out = String::from_str(what);
            out.append(": ");
            out.append(e.as_str());
            Err(out)
        },
        None => Ok(()),
    }
}

/// Verifies the signature of data by a key.
pub fn verify_with_key(pubkey: &str, data: &[u8], signature: &str) -> (r: Result<(), String>)
    ensures
        unit_result(r) == verification(pubkey@, data@, signature@),
{
    let key = match decode_minisign_or_base64(pubkey) {
        Ok(k) => k,
        Err(e) => {
            return Err(e);
        },
    };
    match explain("无法解析公钥", check_key(key.as_str())) {
        Ok(_) => {},
        Err(e) => {
            return Err(e);
        },
    }
    let sig = match decode_minisign_or_base64(signature) {
        Ok(s) => s,
        Err(e) => {
            return Err(e);
        },
    };
    match explain("无法解析签名", check_signature(sig.as_str())) {
        Ok(_) => {},
        Err(e) => {
            return Err(e);
        },
    }
    explain("签名验证失败", verify_data(key.as_str(), sig.as_str(), data, true))
}

/// Verifies the signature of a package.
pub fn verify_signature(package: &[u8], signature: &str) -> (r: Result<(), String>)
    ensures
        unit_result(r) == verification(UPDATER_PUBKEY@, package@, signature@),
{
    verify_with_key(UPDATER_PUBKEY, package, signature)
}

/// What is said of a package that cannot be read.
pub fn unreadable_package(error: &str) -> (r: String)
    ensures
        r@ == "无法读取文件进行签名验证: "@ + error@,
{
    let mut out = String::from_str("无法读取文件进行签名验证: ");
    out.append(error);
    out
}

/// A package is accepted only if its key and its signature can be read, and if the signature is
/// one of exactly this package by that key.
pub proof fn accepted_only_if_verified(pubkey: Seq<char>, data: Seq<u8>, signature: Seq<char>)
    ensures
        verification(pubkey, data, signature) is Ok <==> (match (
            minisign_text(pubkey),
            minisign_text(signature),
        ) {
            (Ok(k), Ok(s)) => key_error(k) is None && signature_error(s) is None && verify_error(
                k,
                s,
                data,
                true,
            ) is None,
            _ => false,
        }),
{
}

} // verus!
