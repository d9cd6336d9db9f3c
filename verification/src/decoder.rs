//! The text decoder: bytes, an encoding label and an error policy give a
//! string.

use vstd::prelude::*;
use vstd::string::{StringExecFns, StringSliceAdditionalSpecFns};
use vstd::utf8::{decode_utf8, encode_utf8, valid_utf8};
use crate::ascii::{LOWER_F, LOWER_T, MINUS};
use crate::float::is_letter;
use crate::text::str_eq;

verus! {

/// `encoding_rs::Encoding`, carried through as it is; see
/// [`encoding_name`] for the name that tells one from another.
#[verifier::external_type_specification]
#[verifier::external_body]
pub struct ExEncoding(encoding_rs::Encoding);

/// The name of an encoding, as `Encoding::name` gives it.
pub uninterp spec fn encoding_name(encoding: &encoding_rs::Encoding) -> Seq<char>;

/// The name of the encoding that `Encoding::for_label` finds for a label;
/// `None` where it finds none.
pub uninterp spec fn label_encoding(label: Seq<char>) -> Option<Seq<char>>;

/// The text that `Encoding::decode_without_bom_handling_and_without_replacement`
/// gives for the encoding of that name; `None` where the bytes are
/// malformed.
pub uninterp spec fn strict_text(name: Seq<char>, data: Seq<u8>) -> Option<Seq<char>>;

/// The text that `Encoding::decode_without_bom_handling` gives for the
/// encoding of that name, malformed bytes replaced.
pub uninterp spec fn lossy_text(name: Seq<char>, data: Seq<u8>) -> Seq<char>;

/// The text that `String::from_utf8_lossy` gives, malformed bytes replaced.
pub uninterp spec fn utf8_lossy_text(data: Seq<u8>) -> Seq<char>;

/// Why decoding failed.
#[derive(Debug, Clone, PartialEq, Eq)]
pub enum DecodeError {
    /// Strict UTF-8 decoding met bytes that are not UTF-8; the text says
    /// where.
    InvalidUtf8(String),
    /// The error policy is none of `strict`, `ignore`, `replace`.
    UnknownPolicy(String),
    /// The label names no encoding.
    UnknownEncoding(String),
    /// Strict decoding met malformed input.
    Malformed,
}

/// View of a [`DecodeError`]; where invalid UTF-8 was met is left out.
pub enum DecodeErrorView {
    InvalidUtf8,
    UnknownPolicy(Seq<char>),
    UnknownEncoding(Seq<char>),
    Malformed,
}

impl View for DecodeError {
    type V = DecodeErrorView;

    open spec fn view(&self) -> DecodeErrorView {
        match self {
            DecodeError::InvalidUtf8(_) => DecodeErrorView::InvalidUtf8,
            DecodeError::UnknownPolicy(p) => DecodeErrorView::UnknownPolicy(p@),
            DecodeError::UnknownEncoding(l) => DecodeErrorView::UnknownEncoding(l@),
            DecodeError::Malformed => DecodeErrorView::Malformed,
        }
    }
}

/// The message of an error. It names the policy or the label that was not
/// known.
pub open spec fn decode_message(e: DecodeError) -> Seq<char> {
    match e {
        DecodeError::InvalidUtf8(detail) => "failed to encode bytes: "@ + detail@,
        DecodeError::UnknownPolicy(p) => "invalid decoder: "@ + p@,
        DecodeError::UnknownEncoding(l) => "invalid encoding: "@ + l@,
        DecodeError::Malformed => "decoding error: malformed input"@,
    }
}

impl DecodeError {
    /// The message of the error.
    pub fn message(&self) -> (r: String)
        ensures
            r@ == decode_message(*self),
    {
        match self {
            DecodeError::InvalidUtf8(detail) => {
                let mut out = String::from_str("failed to encode bytes: ");
                out.append(detail.as_str());
                out
            },
            DecodeError::UnknownPolicy(p) => {
                let mut out = String::from_str("invalid decoder: ");
                out.append(p.as_str());
                out
            },
            DecodeError::UnknownEncoding(l) => {
                let mut out = String::from_str("invalid encoding: ");
                out.append(l.as_str());
                out
            },
            DecodeError::Malformed => String::from_str("decoding error: malformed input"),
        }
    }
}

/// How malformed input is treated.
#[derive(Debug, Clone, Copy, PartialEq, Eq)]
pub enum Policy {
    Lossy,
    Strict,
}

/// The policy that a token selects: `strict`; `ignore`, `replace` or no
/// token for lossy decoding; `None` for any other token.
pub open spec fn policy_of(token: Option<Seq<char>>) -> Option<Policy> {
    match token {
        None => Some(Policy::Lossy),
        Some(t) => if t == "ignore"@ || t == "replace"@ {
            Some(Policy::Lossy)
        } else if t == "strict"@ {
            Some(Policy::Strict)
        } else {
            None
        },
    }
}

/// The bytes spell `utf-8`, the letters in either case.
pub open spec fn utf8_label(label: Seq<u8>) -> bool {
    &&& label.len() == 5
    &&& is_letter(label[0], 0x75)
    &&& is_letter(label[1], LOWER_T)
    &&& is_letter(label[2], LOWER_F)
    &&& label[3] == MINUS
    &&& label[4] == 0x38
}

/// UTF-8 is asked for: no label is given, or the label is `utf-8` in any
/// mix of cases.
pub open spec fn utf8_requested(encoding: Option<Seq<char>>) -> bool {
    match encoding {
        None => true,
        Some(label) => utf8_label(encode_utf8(label)),
    }
}

/// The name of the encoding that the curated table gives for a label.
/// The table is matched exactly; `iso-8859-1` and `latin1` stand for
/// windows-1252, and `gb18030` for GBK.
pub open spec fn curated_name(label: Seq<char>) -> Option<Seq<char>> {
    if label == "shift_jis"@ || label == "shift-jis"@ || label == "sjis"@ {
        Some("Shift_JIS"@)
    } else if label == "big5"@ {
        Some("Big5"@)
    } else if label == "gbk"@ || label == "gb18030"@ {
        Some("GBK"@)
    } else if label == "euc-kr"@ || label == "euckr"@ {
        Some("EUC-KR"@)
    } else if label == "iso-2022-jp"@ {
        Some("ISO-2022-JP"@)
    } else if label == "windows-1252"@ || label == "cp1252"@ || label == "iso-8859-1"@ || label
        == "latin1"@ {
        Some("windows-1252"@)
    } else if label == "windows-1251"@ {
        Some("windows-1251"@)
    } else if label == "windows-1250"@ {
        Some("windows-1250"@)
    } else if label == "iso-8859-2"@ {
        Some("ISO-8859-2"@)
    } else if label == "iso-8859-5"@ {
        Some("ISO-8859-5"@)
    } else if label == "iso-8859-6"@ {
        Some("ISO-8859-6"@)
    } else if label == "iso-8859-7"@ {
        Some("ISO-8859-7"@)
    } else if label == "iso-8859-8"@ {
        Some("ISO-8859-8"@)
    } else if label == "euc-jp"@ || label == "eucjp"@ {
        Some("EUC-JP"@)
    } else {
        None
    }
}

/// `label` is the label under which the curated table looks up the
/// encoding called `name`.
pub open spec fn is_lookup(label: Seq<char>, name: Seq<char>) -> bool {
    ||| label == "shift_jis"@ && name == "Shift_JIS"@
    ||| label == "big5"@ && name == "Big5"@
    ||| label == "gbk"@ && name == "GBK"@
    ||| label == "euc-kr"@ && name == "EUC-KR"@
    ||| label == "iso-2022-jp"@ && name == "ISO-2022-JP"@
    ||| label == "windows-1252"@ && name == "windows-1252"@
    ||| label == "windows-1251"@ && name == "windows-1251"@
    ||| label == "windows-1250"@ && name == "windows-1250"@
    ||| label == "iso-8859-2"@ && name == "ISO-8859-2"@
    ||| label == "iso-8859-5"@ && name == "ISO-8859-5"@
    ||| label == "iso-8859-6"@ && name == "ISO-8859-6"@
    ||| label == "iso-8859-7"@ && name == "ISO-8859-7"@
    ||| label == "iso-8859-8"@ && name == "ISO-8859-8"@
    ||| label == "euc-jp"@ && name == "EUC-JP"@
}

/// The name of the encoding that a label selects: that of the curated
/// table, else that of the general lookup; `None` where neither knows the
/// label.
pub open spec fn codec_name(label: Seq<char>) -> Option<Seq<char>> {
    match curated_name(label) {
        Some(name) => Some(name),
        None => label_encoding(label),
    }
}

/// What decoding yields. When UTF-8 is asked for, the policy decides
/// alone. Otherwise the label is resolved first, then the policy.
pub open spec fn spec_encode(
    data: Seq<u8>,
    encoding: Option<Seq<char>>,
    policy: Option<Seq<char>>,
) -> Result<Seq<char>, DecodeErrorView> {
    if utf8_requested(encoding) {
        match policy_of(policy) {
            None => Err(DecodeErrorView::UnknownPolicy(policy->0)),
            Some(Policy::Lossy) => Ok(
                if valid_utf8(data) {
                    decode_utf8(data)
                } else {
                    utf8_lossy_text(data)
                },
            ),
            Some(Policy::Strict) => if valid_utf8(data) {
                Ok(decode_utf8(data))
            } else {
                Err(DecodeErrorView::InvalidUtf8)
            },
        }
    } else {
        match codec_name(encoding->0) {
            None => Err(DecodeErrorView::UnknownEncoding(encoding->0)),
            Some(name) => match policy_of(policy) {
                None => Err(DecodeErrorView::UnknownPolicy(policy->0)),
                Some(Policy::Lossy) => Ok(lossy_text(name, data)),
                Some(Policy::Strict) => match strict_text(name, data) {
                    Some(text) => Ok(text),
                    None => Err(DecodeErrorView::Malformed),
                },
            },
        }
    }
}

/// Calls `Encoding::for_label` on the bytes of the label. The contract
/// names the encoding that is found, and claims of the fourteen labels of
/// [`is_lookup`] what the crate's table of labels shows: each is found,
/// with the name given there.
#[verifier::external_body]
fn lookup_label(label: &str) -> (r: Option<&'static encoding_rs::Encoding>)
    ensures
        r matches Some(e) ==> label_encoding(label@) == Some(encoding_name(e)),
        r is None ==> label_encoding(label@) is None,
        forall|name: Seq<char>| #[trigger]
            is_lookup(label@, name) ==> r is Some && encoding_name(r->0) == name,
{
    encoding_rs::Encoding::for_label(label.as_bytes())
}

/// Calls `Encoding::decode_without_bom_handling_and_without_replacement`
/// and copies the text out. The length bound keeps the crate's buffer size
/// computation, which panics on overflow, within `usize`.
#[verifier::external_body]
fn decode_strict(encoding: &'static encoding_rs::Encoding, data: &[u8]) -> (r: Option<String>)
    requires
        data@.len() <= usize::MAX / 8,
    ensures
        r is Some <==> strict_text(encoding_name(encoding), data@) is Some,
        r matches Some(s) ==> strict_text(encoding_name(encoding), data@) == Some(s@),
{
    encoding.decode_without_bom_handling_and_without_replacement(data).map(|s| s.into_owned())
}

/// Calls `Encoding::decode_without_bom_handling` and copies the text out,
/// dropping the flag that tells whether anything was replaced. The length
/// bound is that of [`decode_strict`].
#[verifier::external_body]
fn decode_lossy(encoding: &'static encoding_rs::Encoding, data: &[u8]) -> (r: String)
    requires
        data@.len() <= usize::MAX / 8,
    ensures
        r@ == lossy_text(encoding_name(encoding), data@),
{
    encoding.decode_without_bom_handling(data).0.into_owned()
}

/// Calls `std::str::from_utf8` and copies the text, or the text of the
/// error, out: the call succeeds on valid UTF-8 and on nothing else, and
/// the text is what the bytes spell. Nothing is claimed of the error text.
#[verifier::external_body]
fn utf8_strict(data: &[u8]) -> (r: Result<String, String>)
    ensures
        r is Ok <==> valid_utf8(data@),
        r matches Ok(s) ==> s@ == decode_utf8(data@),
{
    std::str::from_utf8(data).map(|s| s.to_owned()).map_err(|e| e.to_string())
}

/// Calls `String::from_utf8_lossy` and copies the text out.
#[verifier::external_body]
fn utf8_lossy(data: &[u8]) -> (r: String)
    ensures
        r@ == utf8_lossy_text(data@),
{
    String::from_utf8_lossy(data).into_owned()
}

/// The policy that a token selects, or the error that names the token.
pub fn select_policy(token: Option<&str>) -> (r: Result<Policy, DecodeError>)
    ensures
        match policy_of(token_view(token)) {
            Some(p) => r == Ok::<Policy, DecodeError>(p),
            None => r matches Err(e) && e@ == DecodeErrorView::UnknownPolicy(token->0@),
        },
{
    match token {
        None => Ok(Policy::Lossy),
        Some(t) => {
            if str_eq(t, "ignore") || str_eq(t, "replace") {
                Ok(Policy::Lossy)
            } else if str_eq(t, "strict") {
                Ok(Policy::Strict)
            } else {
                Err(DecodeError::UnknownPolicy(String::from_str(t)))
            }
        },
    }
}

/// The view of an optional token.
pub open spec fn token_view(token: Option<&str>) -> Option<Seq<char>> {
    match token {
        Some(t) => Some(t@),
        None => None,
    }
}

/// Whether a label is `utf-8` in any mix of cases.
pub fn is_utf8_label(label: &str) -> (r: bool)
    ensures
        r == utf8_label(label.spec_bytes()),
{
    let bytes = label.as_bytes();
    if bytes.len() != 5 {
        return false;
    }
    (bytes[0] == 0x75 || bytes[0] == 0x55) && (bytes[1] == LOWER_T || bytes[1] == 0x54) && (bytes[2]
        == LOWER_F || bytes[2] == 0x46) && bytes[3] == MINUS && bytes[4] == 0x38
}

/// The label under which the curated table looks an encoding up, if the
/// table has the label.
pub fn curated_label(label: &str) -> (r: Option<&'static str>)
    ensures
        match curated_name(label@) {
            Some(name) => r is Some && is_lookup(r->0@, name),
            None => r is None,
        },
{
    if str_eq(label, "shift_jis") || str_eq(label, "shift-jis") || str_eq(label, "sjis") {
        Some("shift_jis")
    } else if str_eq(label, "big5") {
        Some("big5")
    } else if str_eq(label, "gbk") || str_eq(label, "gb18030") {
        Some("gbk")
    } else if str_eq(label, "euc-kr") || str_eq(label, "euckr") {
        Some("euc-kr")
    } else if str_eq(label, "iso-2022-jp") {
        Some("iso-2022-jp")
    } else if str_eq(label, "windows-1252") || str_eq(label, "cp1252") || str_eq(
        label,
        "iso-8859-1",
    ) || str_eq(label, "latin1") {
        Some("windows-1252")
    } else if str_eq(label, "windows-1251") {
        Some("windows-1251")
    } else if str_eq(label, "windows-1250") {
        Some("windows-1250")
    } else if str_eq(label, "iso-8859-2") {
        Some("iso-8859-2")
    } else if str_eq(label, "iso-8859-5") {
        Some("iso-8859-5")
    } else if str_eq(label, "iso-8859-6") {
        Some("iso-8859-6")
    } else if str_eq(label, "iso-8859-7") {
        Some("iso-8859-7")
    } else if str_eq(label, "iso-8859-8") {
        Some("iso-8859-8")
    } else if str_eq(label, "euc-jp") || str_eq(label, "eucjp") {
        Some("euc-jp")
    } else {
        None
    }
}

/// The outcome of strict decoding: the text, or the error for malformed
/// input.
pub fn strict_outcome(decoded: Option<String>) -> (r: Result<String, DecodeError>)
    ensures
        match decoded {
            Some(text) => r == Ok::<String, DecodeError>(text),
            None => r == Err::<String, DecodeError>(DecodeError::Malformed),
        },
{
    match decoded {
        Some(text) => Ok(text),
        None => Err(DecodeError::Malformed),
    }
}

/// Decodes bytes into a string. Without a label, or with the label
/// `utf-8` in any mix of cases, the bytes are read as UTF-8: the policy
/// `strict` fails on bytes that are not UTF-8, the policies `ignore` and
/// `replace` and no policy replace them. With any other label the encoding
/// is looked up, in the curated table first, and the bytes are decoded
/// without regard to a byte order mark: `strict` fails on malformed input,
/// the other policies replace it. A label that names no encoding and a
/// policy that is not known are errors that name them. No label means
/// UTF-8 on every platform. Bytes for another encoding must be few enough
/// for the decoder to size its buffer.
pub fn encode(data: &[u8], encoding: Option<&str>, encoder_errors: Option<&str>) -> (r: Result<
    String,
    DecodeError,
>)
    requires
        !utf8_requested(token_view(encoding)) ==> data@.len() <= usize::MAX / 8,
    ensures
        match spec_encode(data@, token_view(encoding), token_view(encoder_errors)) {
            Ok(text) => r is Ok && r->Ok_0@ == text,
            Err(e) => r is Err && r->Err_0@ == e,
        },
{
    let is_utf8 = match encoding {
        None => true,
        Some(label) => is_utf8_label(label),
    };
    if is_utf8 {
        return match select_policy(encoder_errors) {
            Err(e) => Err(e),
            Ok(Policy::Lossy) => match utf8_strict(data) {
                Ok(text) => Ok(text),
                Err(_) => Ok(utf8_lossy(data)),
            },
            Ok(Policy::Strict) => match utf8_strict(data) {
                Ok(text) => Ok(text),
                Err(detail) => Err(DecodeError::InvalidUtf8(detail)),
            },
        };
    }
    let label = match encoding {
        Some(l) => l,
        None => "utf-8",
    };
    let found = match curated_label(label) {
        Some(canonical) => lookup_label(canonical),
        None => lookup_label(label),
    };
    let codec = match found {
        Some(e) => e,
        None => {
            return Err(DecodeError::UnknownEncoding(String::from_str(label)));
        },
    };
    match select_policy(encoder_errors) {
        Err(e) => Err(e),
        Ok(Policy::Strict) => strict_outcome(decode_strict(codec, data)),
        Ok(Policy::Lossy) => Ok(decode_lossy(codec, data)),
    }
}

} // verus!
