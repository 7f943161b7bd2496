//! Attachments: pasted images and dropped files land in
//! `<vault>/attachments/`, referenced from documents by relative path.
//! Names are `{millis}-{content-hash4}.{ext}`: unique per paste without a
//! random source.

use base64::Engine;
use vstd::prelude::*;
use vstd::utf8::encode_utf8;

use crate::document::{
    has_parent_component, invalid_path_of, is_absolute_path, is_parent_at, rel_path_rejected,
    DocumentService,
};
use crate::error::AppError;
use crate::fmt::{decimal, hex_digit, hex_lower, push_decimal};
use crate::path::{extension, spec_extension};
use crate::text::{
    chars_of, contains_range, contains_seq, find_char, find_char_range, next_field, push_char,
    push_str, split, starts_with, starts_with_range, str_eq, string_of_range,
};

verus! {

// ---------------------------------------------------------------------------
// The base64 codec
// ---------------------------------------------------------------------------

/// What the base64 crate's standard engine (RFC 4648 alphabet, with
/// padding) decodes `input` to: the bytes, or the text of the decode error.
pub uninterp spec fn base64_standard_decode(input: Seq<char>) -> Result<Seq<u8>, Seq<char>>;

/// The character of the standard base64 alphabet for the six bits `x`.
pub open spec fn base64_digit(x: int) -> char {
    if x < 26 {
        (65 + x) as char
    } else if x < 52 {
        (97 + x - 26) as char
    } else if x < 62 {
        (48 + x - 52) as char
    } else if x == 62 {
        '+'
    } else {
        '/'
    }
}

/// RFC 4648 base64 with the standard alphabet and `=` padding: each group
/// of three bytes gives four characters, and a last group of one or two
/// bytes gives two or three characters and the padding.
#[verifier::opaque]
pub open spec fn base64_standard_encode(bytes: Seq<u8>) -> Seq<char>
    decreases bytes.len(),
{
    if bytes.len() == 0 {
        Seq::empty()
    } else {
        let b0 = bytes[0] as int;
        let b1 = if bytes.len() > 1 {
            bytes[1] as int
        } else {
            0
        };
        let b2 = if bytes.len() > 2 {
            bytes[2] as int
        } else {
            0
        };
        let group = seq![
            base64_digit(b0 / 4),
            base64_digit((b0 % 4) * 16 + b1 / 16),
            if bytes.len() > 1 {
                base64_digit((b1 % 16) * 4 + b2 / 64)
            } else {
                '='
            },
            if bytes.len() > 2 {
                base64_digit(b2 % 64)
            } else {
                '='
            },
        ];
        if bytes.len() <= 3 {
            group
        } else {
            group + base64_standard_encode(bytes.skip(3))
        }
    }
}

/// Calls `base64::engine::general_purpose::STANDARD.decode`. The contract
/// says only that the outcome, bytes or error text, is the named function
/// of the input; the decoding rules themselves are left to the crate.
#[verifier::external_body]
fn base64_decode(input: &str) -> (r: Result<Vec<u8>, String>)
    ensures
        match r {
            Ok(b) => base64_standard_decode(input@) == Ok::<Seq<u8>, Seq<char>>(b@),
            Err(t) => base64_standard_decode(input@) == Err::<Seq<u8>, Seq<char>>(t@),
        },
{
    match base64::engine::general_purpose::STANDARD.decode(input) {
        Ok(bytes) => Ok(bytes),
        Err(e) => Err(e.to_string()),
    }
}

/// Calls `base64::engine::general_purpose::STANDARD.encode`, the standard
/// alphabet with padding. The contract claims that the text is RFC 4648
/// base64 of the bytes, as `base64_standard_encode` states it. The call
/// panics only where the text's length would overflow `usize`, which no
/// slice is long enough to reach.
#[verifier::external_body]
fn base64_encode(bytes: &[u8]) -> (r: String)
    ensures
        r@ == base64_standard_encode(bytes@),
{
    base64::engine::general_purpose::STANDARD.encode(bytes)
}

// ---------------------------------------------------------------------------
// Specifications
// ---------------------------------------------------------------------------

/// MIME type to file extension for pasted images.
pub open spec fn spec_mime_to_ext(mime: Seq<char>) -> Seq<char> {
    if mime == "image/png"@ {
        "png"@
    } else if mime == "image/jpeg"@ {
        "jpg"@
    } else if mime == "image/webp"@ {
        "webp"@
    } else if mime == "image/gif"@ {
        "gif"@
    } else if mime == "image/svg+xml"@ {
        "svg"@
    } else if mime == "image/bmp"@ {
        "bmp"@
    } else {
        "bin"@
    }
}

/// The image extensions a pasted file's own name may keep.
pub open spec fn is_image_ext(e: Seq<char>) -> bool {
    ||| e == "png"@
    ||| e == "jpg"@
    ||| e == "jpeg"@
    ||| e == "webp"@
    ||| e == "gif"@
    ||| e == "svg"@
    ||| e == "bmp"@
}

/// The extension of a pasted file: its own name's extension when it is
/// an image one (`jpeg` written `jpg`), else the one of the MIME type.
pub open spec fn spec_paste_ext(mime: Seq<char>, orig_name: Option<Seq<char>>) -> Seq<char> {
    match orig_name {
        Some(name) => match spec_extension(name) {
            Some(e) => if is_image_ext(e) {
                if e == "jpeg"@ {
                    "jpg"@
                } else {
                    e
                }
            } else {
                spec_mime_to_ext(mime)
            },
            None => spec_mime_to_ext(mime),
        },
        None => spec_mime_to_ext(mime),
    }
}

/// The FNV-1a offset basis and prime (64-bit).
pub const FNV_OFFSET: u64 = 0xcbf29ce484222325u64;

pub const FNV_PRIME: u64 = 0x100000001b3u64;

/// One FNV-1a step: xor the byte in, multiply modulo 2^64.
pub open spec fn fnv_step(h: u64, b: u8) -> u64 {
    vstd::wrapping::u64_specs::wrapping_mul(h ^ (b as u64), FNV_PRIME)
}

/// FNV-1a over the bytes.
pub open spec fn fnv1a(bytes: Seq<u8>) -> u64
    decreases bytes.len(),
{
    if bytes.len() == 0 {
        FNV_OFFSET
    } else {
        fnv_step(fnv1a(bytes.drop_last()), bytes.last())
    }
}

/// Four lowercase hexadecimal digits of `x < 65536`.
pub open spec fn hex4(x: nat) -> Seq<char> {
    seq![hex_lower(x / 4096 % 16), hex_lower(x / 256 % 16), hex_lower(x / 16 % 16), hex_lower(x % 16)]
}

/// The content digest of an attachment: the last four hex digits of the
/// FNV-1a hash of its bytes.
pub open spec fn spec_content_hash4(bytes: Seq<u8>) -> Seq<char> {
    hex4((fnv1a(bytes) % 65536) as nat)
}

/// The vault-relative path of a pasted attachment.
pub open spec fn spec_paste_rel_path(
    bytes: Seq<u8>,
    mime: Seq<char>,
    orig_name: Option<Seq<char>>,
    millis: u128,
) -> Seq<char> {
    "attachments/"@ + decimal(millis as nat) + "-"@ + spec_content_hash4(bytes) + "."@
        + spec_paste_ext(mime, orig_name)
}

/// The MIME type an attachment is read back as, from its extension.
pub open spec fn spec_mime_of_path(rel_path: Seq<char>) -> Seq<char> {
    match spec_extension(rel_path) {
        Some(e) => if e == "png"@ {
            "image/png"@
        } else if e == "jpg"@ || e == "jpeg"@ {
            "image/jpeg"@
        } else if e == "webp"@ {
            "image/webp"@
        } else if e == "gif"@ {
            "image/gif"@
        } else if e == "svg"@ {
            "image/svg+xml"@
        } else if e == "bmp"@ {
            "image/bmp"@
        } else {
            "application/octet-stream"@
        },
        None => "application/octet-stream"@,
    }
}

/// The largest attachment read back, in bytes.
pub const MAX_ATTACHMENT_BYTES: u64 = 52428800u64;

/// The error for an attachment larger than `MAX_ATTACHMENT_BYTES`.
pub open spec fn too_large_error(e: AppError) -> bool {
    e matches AppError::Other(m) && m@ == "attachment too large"@
}

/// The largest `data:` URL accepted, in bytes: larger pastes are refused
/// before anything is decoded.
pub const MAX_DATA_URL_BYTES: usize = 67108864usize;

/// A `data:` URL split into its MIME type and payload, or the message of
/// the parse error: it must be at most `MAX_DATA_URL_BYTES` long, start
/// with `data:`, have a `,`, and its meta
/// part (before the comma) must contain `;base64`. The MIME type is the
/// meta part up to its first `;`.
pub open spec fn spec_parse_data_url(s: Seq<char>) -> Result<(Seq<char>, Seq<char>), Seq<char>> {
    if encode_utf8(s).len() > MAX_DATA_URL_BYTES {
        Err("data url too large"@)
    } else if !starts_with(s, "data:"@) {
        Err("not a data url"@)
    } else {
        let rest = s.skip(5);
        match find_char(rest, ',') {
            None => Err("data url missing comma"@),
            Some(k) => {
                let meta = rest.take(k);
                if !contains_seq(meta, ";base64"@) {
                    Err("only base64 data urls supported"@)
                } else {
                    Ok((split(meta, ';')[0], rest.skip(k + 1)))
                }
            },
        }
    }
}

/// The outcome of decoding a `data:` URL: bytes and MIME type, or the
/// message of the parse error.
pub open spec fn spec_decode_data_url(s: Seq<char>) -> Result<(Seq<u8>, Seq<char>), Seq<char>> {
    match spec_parse_data_url(s) {
        Err(m) => Err(m),
        Ok((mime, payload)) => match base64_standard_decode(payload) {
            Ok(bytes) => Ok((bytes, mime)),
            Err(t) => Err("invalid base64: "@ + t),
        },
    }
}

/// The view of an optional string.
pub open spec fn opt_view(o: Option<&str>) -> Option<Seq<char>> {
    match o {
        Some(s) => Some(s@),
        None => None,
    }
}

// ---------------------------------------------------------------------------
// Types
// ---------------------------------------------------------------------------

#[derive(Debug, Clone)]
pub struct AttachmentResult {
    /// Vault-relative path, e.g. `attachments/1754188800123-ab12.png`.
    pub rel_path: String,
}

#[derive(Debug, Clone)]
pub struct AttachmentData {
    pub mime: String,
    /// base64 payload, inlined into the preview as a data URL.
    pub base64: String,
}

/// The parts of a base64 `data:` URL.
#[derive(Debug, Clone)]
pub struct DataUrl {
    pub mime: String,
    pub payload: String,
}

pub struct AttachmentService;

// ---------------------------------------------------------------------------
// Exec
// ---------------------------------------------------------------------------

/// MIME to file extension mapping for pasted images.
pub fn mime_to_ext(mime: &str) -> (e: &'static str)
    ensures
        e@ == spec_mime_to_ext(mime@),
{
    if str_eq(mime, "image/png") {
        "png"
    } else if str_eq(mime, "image/jpeg") {
        "jpg"
    } else if str_eq(mime, "image/webp") {
        "webp"
    } else if str_eq(mime, "image/gif") {
        "gif"
    } else if str_eq(mime, "image/svg+xml") {
        "svg"
    } else if str_eq(mime, "image/bmp") {
        "bmp"
    } else {
        "bin"
    }
}

/// Cheap stable digest: FNV-1a over the bytes, last 4 hex chars.
pub fn content_hash4(bytes: &[u8]) -> (h: String)
    ensures
        h@ == spec_content_hash4(bytes@),
{
    let mut hash: u64 = FNV_OFFSET;
    let mut i: usize = 0;
    assert(bytes@.take(0) =~= Seq::<u8>::empty());
    while i < bytes.len()
        invariant
            i <= bytes.len(),
            hash == fnv1a(bytes@.take(i as int)),
        decreases bytes.len() - i,
    {
        assert(bytes@.take(i + 1).drop_last() =~= bytes@.take(i as int));
        hash = hash ^ (bytes[i] as u64);
        hash = hash.wrapping_mul(FNV_PRIME);
        i += 1;
    }
    assert(bytes@.take(bytes.len() as int) =~= bytes@);
    let x: u64 = hash % 65536;
    let mut h = String::new();
    push_char(&mut h, hex_digit((x / 4096 % 16) as u8, false));
    push_char(&mut h, hex_digit((x / 256 % 16) as u8, false));
    push_char(&mut h, hex_digit((x / 16 % 16) as u8, false));
    push_char(&mut h, hex_digit((x % 16) as u8, false));
    assert(h@ =~= spec_content_hash4(bytes@));
    h
}

fn is_image_ext_str(e: &str) -> (b: bool)
    ensures
        b == is_image_ext(e@),
{
    str_eq(e, "png") || str_eq(e, "jpg") || str_eq(e, "jpeg") || str_eq(e, "webp") || str_eq(
        e,
        "gif",
    ) || str_eq(e, "svg") || str_eq(e, "bmp")
}

impl AttachmentService {
    /// The extension a pasted file is saved with: its own name's when
    /// it looks like an image extension (`jpeg` becomes `jpg`), else the one
    /// of its MIME type.
    pub fn paste_ext(mime: &str, orig_name: Option<&str>) -> (e: String)
        ensures
            e@ == spec_paste_ext(mime@, opt_view(orig_name)),
    {
        if let Some(name) = orig_name {
            if let Some(e) = extension(name) {
                if is_image_ext_str(e.as_str()) {
                    if str_eq(e.as_str(), "jpeg") {
                        return "jpg".to_owned();
                    }
                    return e;
                }
            }
        }
        mime_to_ext(mime).to_owned()
    }

    /// Where a paste made at `millis` (milliseconds since the epoch) is
    /// saved: `attachments/{millis}-{hash4}.{ext}`.
    pub fn paste_result(bytes: &[u8], mime: &str, orig_name: Option<&str>, millis: u128) -> (r:
        AttachmentResult)
        ensures
            r.rel_path@ == spec_paste_rel_path(bytes@, mime@, opt_view(orig_name), millis),
    {
        let ext = Self::paste_ext(mime, orig_name);
        let hash = content_hash4(bytes);
        let mut p = "attachments/".to_owned();
        push_decimal(&mut p, millis);
        push_str(&mut p, "-");
        push_str(&mut p, hash.as_str());
        push_str(&mut p, ".");
        push_str(&mut p, ext.as_str());
        AttachmentResult { rel_path: p }
    }

    /// Whether an attachment of `size` bytes may be read back: one larger
    /// than `MAX_ATTACHMENT_BYTES` gives "attachment too large".
    pub fn check_attachment_size(size: u64) -> (r: Result<(), AppError>)
        ensures
            r is Ok <==> size <= MAX_ATTACHMENT_BYTES,
            r matches Err(e) ==> too_large_error(e),
    {
        if size > MAX_ATTACHMENT_BYTES {
            Err(AppError::Other("attachment too large".to_owned()))
        } else {
            Ok(())
        }
    }

    /// An attachment read back for inline preview: its MIME type from the
    /// extension, and its bytes in base64. The path must meet the same rule
    /// as document paths; a refused one gives `InvalidPath`. More than
    /// `MAX_ATTACHMENT_BYTES` bytes give "attachment too large".
    pub fn attachment_data(rel_path: &str, bytes: &[u8]) -> (r: Result<AttachmentData, AppError>)
        ensures
            rel_path_rejected(rel_path@) ==> (r matches Err(e) && invalid_path_of(e, rel_path@)),
            !rel_path_rejected(rel_path@) && bytes@.len() > MAX_ATTACHMENT_BYTES ==> (r matches Err(
                e,
            ) && too_large_error(e)),
            !rel_path_rejected(rel_path@) && bytes@.len() <= MAX_ATTACHMENT_BYTES ==> (r matches Ok(
                d,
            ) && d.mime@ == spec_mime_of_path(rel_path@) && d.base64@ == base64_standard_encode(
                bytes@,
            )),
    {
        DocumentService::validate_rel_path(rel_path)?;
        Self::check_attachment_size(bytes.len() as u64)?;
        let mime = match extension(rel_path) {
            Some(e) => {
                let e = e.as_str();
                if str_eq(e, "png") {
                    "image/png"
                } else if str_eq(e, "jpg") || str_eq(e, "jpeg") {
                    "image/jpeg"
                } else if str_eq(e, "webp") {
                    "image/webp"
                } else if str_eq(e, "gif") {
                    "image/gif"
                } else if str_eq(e, "svg") {
                    "image/svg+xml"
                } else if str_eq(e, "bmp") {
                    "image/bmp"
                } else {
                    "application/octet-stream"
                }
            },
            None => "application/octet-stream",
        };
        Ok(AttachmentData { mime: mime.to_owned(), base64: base64_encode(bytes) })
    }
}

/// Splits a `data:<mime>;base64,<payload>` URL into MIME type and payload.
pub fn parse_data_url(data_url: &str) -> (r: Result<DataUrl, AppError>)
    ensures
        match r {
            Ok(d) => spec_parse_data_url(data_url@) == Ok::<(Seq<char>, Seq<char>), Seq<char>>(
                (d.mime@, d.payload@),
            ),
            Err(e) => e matches AppError::Parse(m) && spec_parse_data_url(data_url@) == Err::<
                (Seq<char>, Seq<char>),
                Seq<char>,
            >(m@),
        },
{
    let size = data_url.as_bytes().len();
    if size > MAX_DATA_URL_BYTES {
        return Err(AppError::Parse("data url too large".to_owned()));
    }
    let v = chars_of(data_url);
    let len = v.len();
    let prefix = chars_of("data:");
    proof {
        reveal_strlit("data:");
        assert(v@.subrange(0, len as int) =~= v@);
    }
    if !starts_with_range(&v, 0, len, &prefix) {
        return Err(AppError::Parse("not a data url".to_owned()));
    }
    let ghost rest = v@.skip(5);
    assert(rest =~= v@.subrange(5, len as int));
    let k = find_char_range(&v, 5, len, ',');
    if k == len {
        return Err(AppError::Parse("data url missing comma".to_owned()));
    }
    let ghost meta = rest.take(k - 5);
    assert(meta =~= v@.subrange(5, k as int));
    let marker = chars_of(";base64");
    proof {
        reveal_strlit(";base64");
    }
    if !contains_range(&v, 5, k, &marker) {
        return Err(AppError::Parse("only base64 data urls supported".to_owned()));
    }
    let m = next_field(&v, 5, k, ';');
    assert(rest.skip(k - 5 + 1) =~= v@.subrange(k + 1, len as int));
    let mime = string_of_range(&v, 5, m);
    let payload = string_of_range(&v, k + 1, len);
    Ok(DataUrl { mime, payload })
}

/// The result of decoding a `data:` URL, once its payload went through the
/// base64 decoder: the bytes and MIME type, or a parse error that carries
/// the decoder's message.
pub fn finish_data_url(mime: String, decoded: Result<Vec<u8>, String>) -> (r: Result<
    (Vec<u8>, String),
    AppError,
>)
    ensures
        match decoded {
            Ok(b) => r matches Ok((bytes, m)) && bytes@ == b@ && m@ == mime@,
            Err(t) => r matches Err(e) && e matches AppError::Parse(m) && m@ == "invalid base64: "@
                + t@,
        },
{
    match decoded {
        Ok(bytes) => Ok((bytes, mime)),
        Err(t) => {
            let mut m = "invalid base64: ".to_owned();
            push_str(&mut m, t.as_str());
            Err(AppError::Parse(m))
        },
    }
}

/// Decode a `data:<mime>;base64,<payload>` URL into bytes and MIME type.
pub fn decode_data_url(data_url: &str) -> (r: Result<(Vec<u8>, String), AppError>)
    ensures
        match r {
            Ok((bytes, mime)) => spec_decode_data_url(data_url@) == Ok::<
                (Seq<u8>, Seq<char>),
                Seq<char>,
            >((bytes@, mime@)),
            Err(e) => e matches AppError::Parse(m) && spec_decode_data_url(data_url@) == Err::<
                (Seq<u8>, Seq<char>),
                Seq<char>,
            >(m@),
        },
{
    let parts = parse_data_url(data_url)?;
    let decoded = base64_decode(parts.payload.as_str());
    finish_data_url(parts.mime, decoded)
}

/// The content digest is always four lowercase hexadecimal digits.
pub proof fn lemma_content_hash4_shape(bytes: Seq<u8>)
    ensures
        spec_content_hash4(bytes).len() == 4,
        forall|i: int|
            0 <= i < 4 ==> {
                let c = #[trigger] spec_content_hash4(bytes)[i];
                ('0' <= c && c <= '9') || ('a' <= c && c <= 'f')
            },
{
    let x = (fnv1a(bytes) % 65536) as nat;
    assert forall|d: nat| d < 16 implies {
        let c = #[trigger] hex_lower(d);
        ('0' <= c && c <= '9') || ('a' <= c && c <= 'f')
    } by {
        if d < 10 {
            assert(((48 + d) as char) as int == 48 + d);
        } else {
            assert(((87 + d) as char) as int == 87 + d);
        }
    }
    assert(spec_content_hash4(bytes)[0] == hex_lower(x / 4096 % 16));
    assert(spec_content_hash4(bytes)[1] == hex_lower(x / 256 % 16));
    assert(spec_content_hash4(bytes)[2] == hex_lower(x / 16 % 16));
    assert(spec_content_hash4(bytes)[3] == hex_lower(x % 16));
}

/// Names are unique per paste without a random source: two pastes get the
/// same attachment path only when they were made in the same millisecond,
/// with the same content digest and the same extension.
pub proof fn lemma_paste_paths_distinct(
    b1: Seq<u8>,
    m1: Seq<char>,
    o1: Option<Seq<char>>,
    t1: u128,
    b2: Seq<u8>,
    m2: Seq<char>,
    o2: Option<Seq<char>>,
    t2: u128,
)
    requires
        spec_paste_rel_path(b1, m1, o1, t1) == spec_paste_rel_path(b2, m2, o2, t2),
    ensures
        t1 == t2,
        spec_content_hash4(b1) == spec_content_hash4(b2),
        spec_paste_ext(m1, o1) == spec_paste_ext(m2, o2),
{
    reveal_strlit("attachments/");
    reveal_strlit("-");
    reveal_strlit(".");
    crate::fmt::lemma_decimal_digits(t1 as nat);
    crate::fmt::lemma_decimal_digits(t2 as nat);
    let d1 = decimal(t1 as nat);
    let d2 = decimal(t2 as nat);
    let h1 = spec_content_hash4(b1);
    let h2 = spec_content_hash4(b2);
    let e1 = spec_paste_ext(m1, o1);
    let e2 = spec_paste_ext(m2, o2);
    let p = spec_paste_rel_path(b1, m1, o1, t1);
    let x1 = d1 + seq!['-'] + h1 + seq!['.'] + e1;
    let x2 = d2 + seq!['-'] + h2 + seq!['.'] + e2;
    assert(p =~= "attachments/"@ + x1);
    assert(p =~= "attachments/"@ + x2);
    assert(x1 =~= p.skip(12));
    assert(x2 =~= p.skip(12));
    if d1.len() < d2.len() {
        assert(x1[d1.len() as int] == '-');
        assert(x2[d1.len() as int] == d2[d1.len() as int]);
    }
    if d2.len() < d1.len() {
        assert(x2[d2.len() as int] == '-');
        assert(x1[d2.len() as int] == d1[d2.len() as int]);
    }
    assert(d1.len() == d2.len());
    let n = d1.len() as int;
    assert(d1 =~= x1.take(n));
    assert(d2 =~= x2.take(n));
    crate::fmt::lemma_decimal_injective(t1 as nat, t2 as nat);
    assert(h1 =~= x1.subrange(n + 1, n + 5));
    assert(h2 =~= x2.subrange(n + 1, n + 5));
    assert(e1 =~= x1.skip(n + 6));
    assert(e2 =~= x2.skip(n + 6));
}

/// The MIME type a pasted attachment (saved without a name of its own) is
/// read back as: the pasted MIME type when it maps to an image extension,
/// else `application/octet-stream`.
pub open spec fn read_back_mime(mime: Seq<char>) -> Seq<char> {
    if spec_mime_to_ext(mime) == "bin"@ {
        "application/octet-stream"@
    } else {
        mime
    }
}

/// No `/`, `.` or `\` in `s`.
pub open spec fn plain_chars(s: Seq<char>) -> bool {
    forall|i: int| 0 <= i < s.len() ==> #[trigger] s[i] != '/' && s[i] != '.' && s[i] != '\\'
}

proof fn lemma_paste_parts_plain(bytes: Seq<u8>, mime: Seq<char>, millis: u128)
    ensures
        plain_chars(decimal(millis as nat)),
        plain_chars(spec_content_hash4(bytes)),
        plain_chars(spec_paste_ext(mime, None)),
        spec_content_hash4(bytes).len() == 4,
        spec_paste_ext(mime, None).len() >= 3,
{
    crate::fmt::lemma_decimal_digits(millis as nat);
    lemma_content_hash4_shape(bytes);
    let d = decimal(millis as nat);
    assert forall|i: int| 0 <= i < d.len() implies #[trigger] d[i] != '/' && d[i] != '.' && d[i]
        != '\\' by {
        assert('0' <= d[i] <= '9');
    }
    let h = spec_content_hash4(bytes);
    assert forall|i: int| 0 <= i < h.len() implies #[trigger] h[i] != '/' && h[i] != '.' && h[i]
        != '\\' by {
        assert(('0' <= h[i] && h[i] <= '9') || ('a' <= h[i] && h[i] <= 'f'));
    }
    reveal_strlit("png");
    reveal_strlit("jpg");
    reveal_strlit("webp");
    reveal_strlit("gif");
    reveal_strlit("svg");
    reveal_strlit("bmp");
    reveal_strlit("bin");
    let e = spec_paste_ext(mime, None);
    assert forall|i: int| 0 <= i < e.len() implies #[trigger] e[i] != '/' && e[i] != '.' && e[i]
        != '\\' by {
        assert('a' <= e[i] <= 'z');
    }
}

/// The file name part of a pasted attachment's path.
spec fn paste_file_name(bytes: Seq<u8>, mime: Seq<char>, millis: u128) -> Seq<char> {
    decimal(millis as nat) + seq!['-'] + spec_content_hash4(bytes) + seq!['.']
        + spec_paste_ext(mime, None)
}

/// Where the `.` before the extension stands in the file name.
spec fn paste_dot(millis: u128) -> int {
    decimal(millis as nat).len() as int + 5
}

proof fn lemma_paste_name_chars(bytes: Seq<u8>, mime: Seq<char>, millis: u128)
    ensures
        ({
            let seg = paste_file_name(bytes, mime, millis);
            let dot = paste_dot(millis);
            &&& seg.len() > dot + 2
            &&& seg[dot] == '.'
            &&& seg.skip(dot + 1) == spec_paste_ext(mime, None)
            &&& forall|i: int|
                0 <= i < seg.len() ==> #[trigger] seg[i] != '/' && seg[i] != '\\' && (seg[i]
                    == '.' ==> i == dot)
        }),
{
    lemma_paste_parts_plain(bytes, mime, millis);
    let d = decimal(millis as nat);
    let h = spec_content_hash4(bytes);
    let e = spec_paste_ext(mime, None);
    let seg = paste_file_name(bytes, mime, millis);
    let dot = paste_dot(millis);
    assert(seg.skip(dot + 1) =~= e);
    assert forall|i: int| 0 <= i < seg.len() implies #[trigger] seg[i] != '/' && seg[i] != '\\'
        && (seg[i] == '.' ==> i == dot) by {
        if i < d.len() {
            assert(seg[i] == d[i]);
        } else if i == d.len() {
        } else if i < d.len() + 5 {
            assert(seg[i] == h[i - d.len() - 1]);
        } else if i > dot {
            assert(seg[i] == e[i - dot - 1]);
        }
    }
}

proof fn lemma_paste_path_chars(bytes: Seq<u8>, mime: Seq<char>, millis: u128)
    ensures
        ({
            let p = spec_paste_rel_path(bytes, mime, None, millis);
            let seg = paste_file_name(bytes, mime, millis);
            &&& p.len() > 12
            &&& p[0] == 'a'
            &&& p[1] == 't'
            &&& p[11] == '/'
            &&& p.skip(12) == seg
            &&& forall|i: int|
                0 <= i < p.len() ==> #[trigger] p[i] != '\\' && (p[i] == '/' ==> i == 11) && (
                p[i] == '.' ==> i == 12 + paste_dot(millis))
        }),
{
    lemma_paste_name_chars(bytes, mime, millis);
    reveal_strlit("attachments/");
    reveal_strlit("-");
    reveal_strlit(".");
    let a = "attachments/"@;
    let seg = paste_file_name(bytes, mime, millis);
    let p = spec_paste_rel_path(bytes, mime, None, millis);
    assert(a =~= seq!['a', 't', 't', 'a', 'c', 'h', 'm', 'e', 'n', 't', 's', '/']);
    assert(p =~= a + seg);
    assert(p[1] == a[1]);
    assert(p.skip(12) =~= seg);
    assert forall|i: int| 0 <= i < p.len() implies #[trigger] p[i] != '\\' && (p[i] == '/' ==> i
        == 11) && (p[i] == '.' ==> i == 12 + paste_dot(millis)) by {
        if i >= 12 {
            assert(p[i] == seg[i - 12]);
        } else {
            assert(p[i] == a[i]);
        }
    }
}

proof fn lemma_paste_path_accepted(bytes: Seq<u8>, mime: Seq<char>, millis: u128)
    ensures
        !rel_path_rejected(spec_paste_rel_path(bytes, mime, None, millis)),
{
    lemma_paste_path_chars(bytes, mime, millis);
    let p = spec_paste_rel_path(bytes, mime, None, millis);
    assert(!is_absolute_path(p));
    crate::text::lemma_find_char(p, '\\');
    crate::text::lemma_find_pair(p, '/', '/');
    if find_char(p, '\\') is Some {
        let k = find_char(p, '\\')->0;
        assert(p[k] == '\\');
    }
    if crate::text::find_pair(p, '/', '/') is Some {
        let k = crate::text::find_pair(p, '/', '/')->0;
        assert(p[k] == '/' && p[k + 1] == '/');
    }
    if has_parent_component(p) {
        let i = choose|i: int| is_parent_at(p, i);
        assert(p[i] == '.' && p[i + 1] == '.');
    }
}

#[verifier::spinoff_prover]
proof fn lemma_paste_path_extension(bytes: Seq<u8>, mime: Seq<char>, millis: u128)
    ensures
        spec_extension(spec_paste_rel_path(bytes, mime, None, millis)) == Some(
            spec_paste_ext(mime, None),
        ),
{
    lemma_paste_path_chars(bytes, mime, millis);
    lemma_paste_name_chars(bytes, mime, millis);
    let p = spec_paste_rel_path(bytes, mime, None, millis);
    let seg = paste_file_name(bytes, mime, millis);
    let dot = paste_dot(millis);
    crate::path::lemma_rfind_char(p, '/');
    if crate::path::rfind_char(p, '/') is Some {
        let k = crate::path::rfind_char(p, '/')->0;
        assert(p[k] == '/');
    }
    assert(crate::path::rfind_char(p, '/') == Some(11int));
    reveal(crate::path::last_component);
    assert(crate::path::last_component(p) == Some(seg));
    assert(seg != seq!['.', '.']) by {
        if seg == seq!['.', '.'] {
            assert(seg.len() == 2);
        }
    }
    crate::path::lemma_rfind_char(seg, '.');
    if crate::path::rfind_char(seg, '.') is Some {
        let k = crate::path::rfind_char(seg, '.')->0;
        assert(seg[k] == '.');
    }
    assert(crate::path::rfind_char(seg, '.') == Some(dot));
}

proof fn lemma_ext_mime(mime: Seq<char>)
    ensures
        ({
            let e = spec_paste_ext(mime, None);
            (if e == "png"@ {
                "image/png"@
            } else if e == "jpg"@ || e == "jpeg"@ {
                "image/jpeg"@
            } else if e == "webp"@ {
                "image/webp"@
            } else if e == "gif"@ {
                "image/gif"@
            } else if e == "svg"@ {
                "image/svg+xml"@
            } else if e == "bmp"@ {
                "image/bmp"@
            } else {
                "application/octet-stream"@
            }) == read_back_mime(mime)
        }),
{
    reveal_strlit("png");
    reveal_strlit("jpg");
    reveal_strlit("jpeg");
    reveal_strlit("webp");
    reveal_strlit("gif");
    reveal_strlit("svg");
    reveal_strlit("bmp");
    reveal_strlit("bin");
    let png = "png"@;
    let jpg = "jpg"@;
    let jpeg = "jpeg"@;
    let webp = "webp"@;
    let gif = "gif"@;
    let svg = "svg"@;
    let bmp = "bmp"@;
    let bin = "bin"@;
    assert(jpg[0] != png[0] && jpg != png);
    assert(webp.len() != png.len() && webp != png && webp != jpg && webp[0] != jpeg[0] && webp
        != jpeg);
    assert(gif[0] != png[0] && gif[0] != jpg[0] && gif[0] != jpeg[0] && gif[0] != webp[0]);
    assert(gif != png && gif != jpg && gif != jpeg && gif != webp);
    assert(svg[0] != png[0] && svg[0] != jpg[0] && svg[0] != jpeg[0] && svg[0] != webp[0]
        && svg[0] != gif[0]);
    assert(svg != png && svg != jpg && svg != jpeg && svg != webp && svg != gif);
    assert(bmp[0] != png[0] && bmp[0] != jpg[0] && bmp[0] != jpeg[0] && bmp[0] != webp[0]
        && bmp[0] != gif[0] && bmp[0] != svg[0]);
    assert(bmp != png && bmp != jpg && bmp != jpeg && bmp != webp && bmp != gif && bmp != svg);
    assert(bin[1] != png[1] && bin[0] != jpg[0] && bin[0] != jpeg[0] && bin[0] != webp[0]
        && bin[0] != gif[0] && bin[0] != svg[0] && bin[1] != bmp[1]);
    assert(bin != png && bin != jpg && bin != jpeg && bin != webp && bin != gif && bin != svg
        && bin != bmp);
}

/// A pasted attachment (saved without a name of its own) can be read
/// back: its path meets the path rule, and it reads back as the pasted
/// MIME type (or `application/octet-stream` when that type has no image
/// extension). With `attachment_data`, reading back the saved bytes (at
/// most `MAX_ATTACHMENT_BYTES` of them) gives that type and their base64.
pub proof fn lemma_saved_paste_reads_back(bytes: Seq<u8>, mime: Seq<char>, millis: u128)
    ensures
        !rel_path_rejected(spec_paste_rel_path(bytes, mime, None, millis)),
        spec_mime_of_path(spec_paste_rel_path(bytes, mime, None, millis)) == read_back_mime(mime),
{
    lemma_paste_path_accepted(bytes, mime, millis);
    lemma_paste_path_extension(bytes, mime, millis);
    lemma_ext_mime(mime);
}

} // verus!
