//! The BLOB wire format: how binary column values travel as text.
//!
//! * `BLOB:<size>:<mime>:<base64>` carries the bytes (or a preview of them);
//! * `BLOB_FILE_REF:<size>:<name>:<path>` points at a file to upload.
use vstd::prelude::*;
use crate::text::{
    chars_of, decimal, lemma_decimal_digits, lemma_digits_exclude, lemma_split_once_at,
    occurs_at_exec, parse_u64, parse_u64_spec, push_char, push_decimal, split_once,
    split_once_at, starts_with, string_of,
};

verus! {

/// Maximum size in bytes for BLOB data to include as base64 preview.
pub const MAX_BLOB_PREVIEW_SIZE: usize = 4096;

/// Default maximum size in bytes for a BLOB file that can be uploaded/loaded into memory.
pub const DEFAULT_MAX_BLOB_SIZE: u64 = 104857600;

// ---------------------------------------------------------------------------
// Outside calls

/// The MIME type that `infer::get` recognises in `data`, if any.
pub uninterp spec fn mime_type_of(data: Seq<u8>) -> Option<Seq<char>>;

/// `infer::get(data)` followed by `Type::mime_type`. Its contract: the result
/// is `mime_type_of(data)`; a recognised type is a non-empty string without
/// `':'` (every entry of infer's matcher table is). Which bytes map to which
/// type is left unstated.
#[verifier::external_body]
fn infer_mime_type(data: &[u8]) -> (r: Option<String>)
    ensures
        match r {
            Some(m) => mime_type_of(data@) == Some(m@),
            None => mime_type_of(data@) is None,
        },
        r matches Some(m) ==> m@.len() > 0 && !m@.contains(':'),
{
    match infer::get(data) {
        Some(kind) => Some(kind.mime_type().to_string()),
        None => None,
    }
}

/// The character for the 6-bit value `i` in the standard base64 alphabet
/// (`A`-`Z`, `a`-`z`, `0`-`9`, `+`, `/`).
pub open spec fn base64_digit(i: int) -> char {
    if i < 26 {
        (65 + i) as char
    } else if i < 52 {
        (97 + (i - 26)) as char
    } else if i < 62 {
        (48 + (i - 52)) as char
    } else if i == 62 {
        '+'
    } else {
        '/'
    }
}

/// The standard (RFC 4648, padded) base64 text of `data`: each group of three
/// bytes gives four characters of six bits each; a last group of one or two
/// bytes is padded with `'='` to four characters.
pub open spec fn base64_encoding(data: Seq<u8>) -> Seq<char>
    decreases data.len(),
{
    if data.len() == 0 {
        Seq::<char>::empty()
    } else if data.len() == 1 {
        let b0 = data[0] as int;
        seq![base64_digit(b0 / 4), base64_digit((b0 % 4) * 16), '=', '=']
    } else if data.len() == 2 {
        let b0 = data[0] as int;
        let b1 = data[1] as int;
        seq![base64_digit(b0 / 4), base64_digit((b0 % 4) * 16 + b1 / 16), base64_digit((b1 % 16) * 4), '=']
    } else {
        let b0 = data[0] as int;
        let b1 = data[1] as int;
        let b2 = data[2] as int;
        seq![
            base64_digit(b0 / 4),
            base64_digit((b0 % 4) * 16 + b1 / 16),
            base64_digit((b1 % 16) * 4 + b2 / 64),
            base64_digit(b2 % 64),
        ] + base64_encoding(data.skip(3))
    }
}

/// The bytes that the standard base64 engine decodes from `text`, if it accepts it.
pub uninterp spec fn base64_decoding(text: Seq<char>) -> Option<Seq<u8>>;

/// A character of the standard base64 alphabet, or the padding `'='`.
pub open spec fn is_base64_char(c: char) -> bool {
    ||| 'A' <= c <= 'Z'
    ||| 'a' <= c <= 'z'
    ||| '0' <= c <= '9'
    ||| c == '+'
    ||| c == '/'
    ||| c == '='
}

/// The length of the padded base64 text of `n` bytes fits in `usize`
/// (`base64` panics otherwise).
pub open spec fn base64_len_fits(n: nat) -> bool {
    (n / 3) * 4 + (if n % 3 == 0 { 0nat } else { 4nat }) <= usize::MAX
}

/// Whether the base64 text of `n` bytes has a length that fits in `usize`.
pub fn base64_len_ok(n: usize) -> (b: bool)
    ensures
        b == base64_len_fits(n as nat),
{
    let m = n as u128;
    let len: u128 = (m / 3) * 4 + (if m % 3 == 0 { 0 } else { 4 });
    len <= usize::MAX as u128
}

/// `base64::Engine::encode` with `general_purpose::STANDARD`. Its contract:
/// the result is `base64_encoding(data)`, the padded standard encoding, and so
/// uses only the standard alphabet and `'='`.
#[verifier::external_body]
fn base64_encode(data: &[u8]) -> (r: String)
    requires
        base64_len_fits(data@.len() as nat),
    ensures
        r@ == base64_encoding(data@),
        forall|i: int| 0 <= i < r@.len() ==> is_base64_char(#[trigger] r@[i]),
{
    base64::Engine::encode(&base64::engine::general_purpose::STANDARD, data)
}

/// `base64::Engine::decode` with `general_purpose::STANDARD`, errors mapped to
/// `None`. Its contract: the result is `base64_decoding(text)`, and the text
/// that the engine itself produced for some bytes decodes to those bytes. Which
/// other texts are accepted is left unstated.
#[verifier::external_body]
fn base64_decode(text: &str) -> (r: Option<Vec<u8>>)
    ensures
        match r {
            Some(v) => base64_decoding(text@) == Some(v@),
            None => base64_decoding(text@) is None,
        },
        r is None ==> forall|d: Seq<u8>| #[trigger] base64_encoding(d) != text@,
        r matches Some(v) ==> forall|d: Seq<u8>| #[trigger] base64_encoding(d) == text@ ==> v@ == d,
{
    base64::Engine::decode(&base64::engine::general_purpose::STANDARD, text).ok()
}

// ---------------------------------------------------------------------------
// The format

/// `"BLOB:"`.
pub open spec fn blob_tag() -> Seq<char> {
    seq!['B', 'L', 'O', 'B', ':']
}

/// `"BLOB_FILE_REF:"`.
pub open spec fn file_ref_tag() -> Seq<char> {
    seq!['B', 'L', 'O', 'B', '_', 'F', 'I', 'L', 'E', '_', 'R', 'E', 'F', ':']
}

/// The MIME type used when `infer` recognises nothing.
pub open spec fn fallback_mime() -> Seq<char> {
    seq![
        'a', 'p', 'p', 'l', 'i', 'c', 'a', 't', 'i', 'o', 'n', '/',
        'o', 'c', 't', 'e', 't', '-', 's', 't', 'r', 'e', 'a', 'm',
    ]
}

/// `BLOB:<size>:<mime>:<payload>`.
pub open spec fn blob_text(size: nat, mime: Seq<char>, payload: Seq<char>) -> Seq<char> {
    blob_tag() + decimal(size) + seq![':'] + mime + seq![':'] + payload
}

/// The MIME type reported for `data`.
pub open spec fn reported_mime(data: Seq<u8>) -> Seq<char> {
    match mime_type_of(data) {
        Some(m) => m,
        None => fallback_mime(),
    }
}

/// The bytes of `data` that a preview carries.
pub open spec fn preview_of(data: Seq<u8>) -> Seq<u8> {
    if data.len() > MAX_BLOB_PREVIEW_SIZE { data.take(MAX_BLOB_PREVIEW_SIZE as int) } else { data }
}

fn append_blob_text(out: &mut String, total: usize, mime: &str, payload: &str)
    ensures
        final(out)@ == old(out)@ + blob_text(total as nat, mime@, payload@),
{
    proof { reveal_strlit("BLOB:"); }
    out.append("BLOB:");
    push_decimal(out, total as u64);
    push_char(out, ':');
    out.append(mime);
    push_char(out, ':');
    out.append(payload);
    proof {
        assert("BLOB:"@ =~= blob_tag());
    }
}

fn mime_or_fallback(data: &[u8]) -> (m: String)
    ensures
        m@ == reported_mime(data@),
        !m@.contains(':'),
{
    match infer_mime_type(data) {
        Some(m) => m,
        None => {
            proof { reveal_strlit("application/octet-stream"); }
            let m = String::from_str("application/octet-stream");
            assert(m@ =~= fallback_mime());
            m
        },
    }
}

/// A `BLOB:` text for `data` whose payload is the base64 of at most the first
/// `MAX_BLOB_PREVIEW_SIZE` bytes; the size field is the full length.
pub fn encode_blob(data: &[u8]) -> (r: String)
    ensures
        r@ == blob_text(data@.len() as nat, reported_mime(preview_of(data@)), base64_encoding(preview_of(data@))),
        !reported_mime(preview_of(data@)).contains(':'),
{
    let total_size = data.len();
    let preview = if total_size > MAX_BLOB_PREVIEW_SIZE {
        vstd::slice::slice_subrange(data, 0, MAX_BLOB_PREVIEW_SIZE)
    } else {
        data
    };
    let mime_type = mime_or_fallback(preview);
    let b64 = base64_encode(preview);
    let mut out = String::new();
    append_blob_text(&mut out, total_size, mime_type.as_str(), b64.as_str());
    out
}

/// A `BLOB:` text carrying all of `data`.
pub fn encode_blob_full(data: &[u8]) -> (r: String)
    requires
        base64_len_fits(data@.len() as nat),
    ensures
        r@ == blob_text(data@.len() as nat, reported_mime(data@), base64_encoding(data@)),
        !reported_mime(data@).contains(':'),
{
    let total_size = data.len();
    let mime_type = mime_or_fallback(data);
    let b64 = base64_encode(data);
    let mut out = String::new();
    append_blob_text(&mut out, total_size, mime_type.as_str(), b64.as_str());
    out
}

// ---------------------------------------------------------------------------
// File references

/// The message for a reference whose size exceeds the limit.
pub open spec fn size_error(n: nat, max: nat) -> Seq<char> {
    "File size ("@ + decimal(n) + " bytes) exceeds maximum allowed size ("@ + decimal(max)
        + " bytes / "@ + decimal(max / 1048576) + "MB)"@
}

/// What a `BLOB_FILE_REF:<size>:<name>:<path>` text designates: the path of a
/// file of at most `max` bytes, or the error that refuses the text.
pub open spec fn file_ref_path(s: Seq<char>, max: u64) -> Result<Seq<char>, Seq<char>> {
    if !starts_with(s, file_ref_tag()) {
        Err("Not a BLOB_FILE_REF"@)
    } else {
        match split_once(s.skip(file_ref_tag().len() as int), ':') {
            None => Err("Invalid BLOB_FILE_REF format"@),
            Some((size_text, rest)) => match split_once(rest, ':') {
                None => Err("Invalid BLOB_FILE_REF format"@),
                Some((_name, path)) => match parse_u64_spec(size_text) {
                    None => Err("Invalid file size in BLOB_FILE_REF"@),
                    Some(n) => if n > max {
                        Err(size_error(n as nat, max as nat))
                    } else {
                        Ok(path)
                    },
                },
            },
        }
    }
}

/// `BLOB_FILE_REF:<size>:<name>:<path>`.
pub open spec fn file_ref_text(size: nat, name: Seq<char>, path: Seq<char>) -> Seq<char> {
    file_ref_tag() + decimal(size) + seq![':'] + name + seq![':'] + path
}

/// A file reference written with its size, a name without `':'` and any path
/// designates that path when the size is within the limit, and is refused with
/// the size message otherwise.
pub proof fn lemma_file_ref_roundtrip(n: u64, name: Seq<char>, path: Seq<char>, max: u64)
    requires
        !name.contains(':'),
    ensures
        n <= max ==> file_ref_path(file_ref_text(n as nat, name, path), max) == Ok::<Seq<char>, Seq<char>>(path),
        n > max ==> file_ref_path(file_ref_text(n as nat, name, path), max)
            == Err::<Seq<char>, Seq<char>>(size_error(n as nat, max as nat)),
{
    let t = file_ref_text(n as nat, name, path);
    let d = decimal(n as nat);
    lemma_decimal_digits(n as nat);
    lemma_digits_exclude(d, ':');
    crate::text::lemma_parse_decimal(n);
    assert(t.subrange(0, 14) =~= file_ref_tag());
    let rest = t.skip(14);
    let q = name + seq![':'] + path;
    assert(rest =~= d + seq![':'] + q);
    assert forall|j: int| 0 <= j < d.len() implies rest[j] != ':' by {
        assert(rest[j] == d[j]);
    }
    lemma_split_once_at(rest, ':', d.len() as int);
    assert(rest.take(d.len() as int) =~= d);
    assert(rest.skip(d.len() as int + 1) =~= q);
    assert forall|j: int| 0 <= j < name.len() implies q[j] != ':' by {
        assert(q[j] == name[j]);
    }
    lemma_split_once_at(q, ':', name.len() as int);
    assert(q.take(name.len() as int) =~= name);
    assert(q.skip(name.len() as int + 1) =~= path);
}

fn tag_chars(file_ref: bool) -> (t: Vec<char>)
    ensures
        t@ == (if file_ref { file_ref_tag() } else { blob_tag() }),
{
    if file_ref {
        proof { reveal_strlit("BLOB_FILE_REF:"); }
        let t = chars_of("BLOB_FILE_REF:");
        assert(t@ =~= file_ref_tag());
        t
    } else {
        proof { reveal_strlit("BLOB:"); }
        let t = chars_of("BLOB:");
        assert(t@ =~= blob_tag());
        t
    }
}

/// The path that a `BLOB_FILE_REF:` text designates, checked against the size
/// limit; reading the file is left to the caller.
pub fn blob_file_ref_path(value: &str, max_size: u64) -> (r: Result<String, String>)
    ensures
        match r {
            Ok(p) => file_ref_path(value@, max_size) == Ok::<Seq<char>, Seq<char>>(p@),
            Err(e) => file_ref_path(value@, max_size) == Err::<Seq<char>, Seq<char>>(e@),
        },
{
    let v = chars_of(value);
    let tag = tag_chars(true);
    if !occurs_at_exec(&v, &tag, 0) {
        return Err(String::from_str("Not a BLOB_FILE_REF"));
    }
    let start = tag.len();
    assert(v@.subrange(start as int, v@.len() as int) =~= v@.skip(start as int));
    let (size_end, rest_start) = match split_once_at(&v, start, v.len(), ':') {
        Some(p) => p,
        None => {
            return Err(String::from_str("Invalid BLOB_FILE_REF format"));
        },
    };
    let path_start = match split_once_at(&v, rest_start, v.len(), ':') {
        Some((_, s)) => s,
        None => {
            return Err(String::from_str("Invalid BLOB_FILE_REF format"));
        },
    };
    let file_size = match parse_u64(&v, start, size_end) {
        Some(n) => n,
        None => {
            return Err(String::from_str("Invalid file size in BLOB_FILE_REF"));
        },
    };
    if file_size > max_size {
        let mut msg = String::from_str("File size (");
        push_decimal(&mut msg, file_size);
        msg.append(" bytes) exceeds maximum allowed size (");
        push_decimal(&mut msg, max_size);
        msg.append(" bytes / ");
        push_decimal(&mut msg, max_size / 1048576);
        msg.append("MB)");
        return Err(msg);
    }
    Ok(string_of(&v, path_start, v.len()))
}

// ---------------------------------------------------------------------------
// Decoding

/// Where the bytes of a decoded BLOB value come from.
pub enum BlobSource {
    /// The bytes carried inline by a `BLOB:` text.
    Inline(Vec<u8>),
    /// The path of a file named by a `BLOB_FILE_REF:` text, still to be read.
    File(String),
}

/// The mathematical content of a [`BlobSource`].
pub enum BlobPayload {
    Inline(Seq<u8>),
    File(Seq<char>),
}

impl View for BlobSource {
    type V = BlobPayload;

    open spec fn view(&self) -> BlobPayload {
        match self {
            BlobSource::Inline(b) => BlobPayload::Inline(b@),
            BlobSource::File(p) => BlobPayload::File(p@),
        }
    }
}

/// The payload of a `BLOB:` text: what follows the second `':'` after the tag.
pub open spec fn inline_payload(s: Seq<char>) -> Option<Seq<char>> {
    if starts_with(s, blob_tag()) {
        match split_once(s.skip(blob_tag().len() as int), ':') {
            None => None,
            Some((_size, after_size)) => match split_once(after_size, ':') {
                None => None,
                Some((_mime, payload)) => Some(payload),
            },
        }
    } else {
        None
    }
}

/// What a wire value decodes to: the file that a valid `BLOB_FILE_REF:` text
/// names, or the bytes whose base64 is the payload of a `BLOB:` text.
pub open spec fn decoded_blob(s: Seq<char>, max: u64) -> Option<BlobPayload> {
    if starts_with(s, file_ref_tag()) {
        match file_ref_path(s, max) {
            Ok(p) => Some(BlobPayload::File(p)),
            Err(_) => None,
        }
    } else {
        match inline_payload(s) {
            None => None,
            Some(p) => match base64_decoding(p) {
                Some(b) => Some(BlobPayload::Inline(b)),
                None => None,
            },
        }
    }
}

/// How a `BLOB:` text splits: it is no file reference, and its payload is the
/// last field, whatever the size, provided the MIME type holds no `':'`.
pub proof fn lemma_blob_text_fields(n: nat, m: Seq<char>, p: Seq<char>)
    requires
        !m.contains(':'),
    ensures
        !starts_with(blob_text(n, m, p), file_ref_tag()),
        inline_payload(blob_text(n, m, p)) == Some(p),
{
    let t = blob_text(n, m, p);
    let d = decimal(n);
    lemma_decimal_digits(n);
    lemma_digits_exclude(d, ':');
    assert(t.subrange(0, 5) =~= blob_tag());
    if starts_with(t, file_ref_tag()) {
        assert(t[4] == file_ref_tag()[4]);
    }
    let rest = t.skip(5);
    let q = m + seq![':'] + p;
    assert(rest =~= d + seq![':'] + q);
    assert forall|j: int| 0 <= j < d.len() implies rest[j] != ':' by {
        assert(rest[j] == d[j]);
    }
    lemma_split_once_at(rest, ':', d.len() as int);
    assert(rest.take(d.len() as int) =~= d);
    assert(rest.skip(d.len() as int + 1) =~= q);
    assert forall|j: int| 0 <= j < m.len() implies q[j] != ':' by {
        assert(q[j] == m[j]);
    }
    lemma_split_once_at(q, ':', m.len() as int);
    assert(q.take(m.len() as int) =~= m);
    assert(q.skip(m.len() as int + 1) =~= p);
}

/// Decodes a BLOB wire value: the bytes of a `BLOB:` text, or the file that a
/// `BLOB_FILE_REF:` text designates. A text that `encode_blob_full` produced
/// decodes to the bytes it was made from.
pub fn decode_blob_wire_format(value: &str, max_size: u64) -> (r: Option<BlobSource>)
    ensures
        match r {
            Some(b) => decoded_blob(value@, max_size) == Some(b@),
            None => decoded_blob(value@, max_size) is None,
        },
        forall|d: Seq<u8>, m: Seq<char>|
            value@ == #[trigger] blob_text(d.len(), m, base64_encoding(d)) && !m.contains(':')
                ==> (r matches Some(BlobSource::Inline(b)) && b@ == d),
{
    let v = chars_of(value);
    let file_tag = tag_chars(true);
    if occurs_at_exec(&v, &file_tag, 0) {
        proof {
            assert forall|d: Seq<u8>, m: Seq<char>|
                value@ == #[trigger] blob_text(d.len(), m, base64_encoding(d)) && !m.contains(':')
                implies false by {
                lemma_blob_text_fields(d.len(), m, base64_encoding(d));
            }
        }
        return match blob_file_ref_path(value, max_size) {
            Ok(p) => Some(BlobSource::File(p)),
            Err(_) => None,
        };
    }
    let res = decode_inline(&v);
    proof {
        assert forall|d: Seq<u8>, m: Seq<char>|
            value@ == #[trigger] blob_text(d.len(), m, base64_encoding(d)) && !m.contains(':')
            implies (res matches Some(BlobSource::Inline(b)) && b@ == d) by {
            lemma_blob_text_fields(d.len(), m, base64_encoding(d));
        }
    }
    res
}

fn decode_inline(v: &Vec<char>) -> (r: Option<BlobSource>)
    ensures
        match inline_payload(v@) {
            None => r is None,
            Some(p) => match base64_decoding(p) {
                Some(b) => r matches Some(BlobSource::Inline(x)) && x@ == b,
                None => r is None,
            },
        },
        forall|d: Seq<u8>| inline_payload(v@) == Some(#[trigger] base64_encoding(d))
            ==> (r matches Some(BlobSource::Inline(x)) && x@ == d),
{
    let tag = tag_chars(false);
    if !occurs_at_exec(v, &tag, 0) {
        return None;
    }
    let start = tag.len();
    assert(v@.subrange(start as int, v@.len() as int) =~= v@.skip(start as int));
    let after_size = match split_once_at(v, start, v.len(), ':') {
        Some((_, s)) => s,
        None => {
            return None;
        },
    };
    let payload_start = match split_once_at(v, after_size, v.len(), ':') {
        Some((_, s)) => s,
        None => {
            return None;
        },
    };
    let payload = string_of(v, payload_start, v.len());
    match base64_decode(payload.as_str()) {
        Some(b) => Some(BlobSource::Inline(b)),
        None => None,
    }
}

} // verus!
