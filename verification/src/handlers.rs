//! The decisions the HTTP handlers make, apart from their I/O: page sizes,
//! accepted text messages, upload naming and limits, recall replies, and the
//! rendering of the index page.
use vstd::prelude::*;
use crate::avatar;
use crate::avatar::avatar_url;
use crate::db::RecallDecision;
use crate::identity;
use crate::identity::display_name;
use crate::models::{MeResponse, MessageKind};
use crate::text;
use crate::text::{
    chars_of, push_char, push_str, range_starts_with, string_from, string_of, trim, trim_ws_bounds,
};

verus! {

/// Query parameters of the message list.
pub struct MessagesQuery {
    pub before: Option<i64>,
    pub limit: Option<i64>,
}

/// The page size asked for, 10 by default, kept within 1..=50.
pub open spec fn page_limit_of(limit: Option<i64>) -> i64 {
    let l = match limit {
        Some(l) => l,
        None => 10,
    };
    if l < 1 {
        1
    } else if l > 50 {
        50
    } else {
        l
    }
}

/// The page size of a message-list request.
pub fn page_limit(limit: Option<i64>) -> (r: i64)
    ensures
        r == page_limit_of(limit),
        1 <= r <= 50,
{
    let l = match limit {
        Some(l) => l,
        None => 10,
    };
    if l < 1 {
        1
    } else if l > 50 {
        50
    } else {
        l
    }
}

/// The text stored for a posted message: the content without surrounding
/// whitespace; `None` (a bad request) when nothing else is left.
pub fn post_content(content: &str) -> (r: Option<String>)
    ensures
        match r {
            Some(s) => s@ == text::trim_ws(content@) && s@.len() > 0,
            None => text::trim_ws(content@).len() == 0,
        },
{
    let t = trim(content);
    if chars_of(t.as_str()).len() == 0 {
        None
    } else {
        Some(t)
    }
}

// ---------------------------------------------------------------------------
// Uploads
// ---------------------------------------------------------------------------

/// The value of a run of decimal digits.
pub open spec fn digits_value(s: Seq<char>) -> nat
    decreases s.len(),
{
    if s.len() == 0 {
        0
    } else {
        digits_value(s.drop_last()) * 10 + ((s.last() as u32) - 48) as nat
    }
}

pub open spec fn is_digit(c: char) -> bool {
    48 <= (c as u32) <= 57
}

/// Every character of `d` is a decimal digit.
pub open spec fn all_digits(d: Seq<char>) -> bool {
    forall|i: int| 0 <= i < d.len() ==> is_digit(#[trigger] d[i])
}

/// `str::parse::<u64>`: an optional `+`, then at least one decimal digit and
/// nothing else, of a value that fits in 64 bits.
pub open spec fn parse_u64_of(s: Seq<char>) -> Option<u64> {
    let d = if s.len() > 0 && s[0] == '+' {
        s.drop_first()
    } else {
        s
    };
    if d.len() > 0 && all_digits(d) && digits_value(d) <= u64::MAX {
        Some(digits_value(d) as u64)
    } else {
        None
    }
}

/// A prefix of a digit run never has a larger value than the run.
proof fn lemma_digits_value_prefix(s: Seq<char>, k: int)
    requires
        0 <= k <= s.len(),
    ensures
        digits_value(s.take(k)) <= digits_value(s),
    decreases s.len() - k,
{
    if k < s.len() {
        lemma_digits_value_prefix(s, k + 1);
        assert(s.take(k + 1).drop_last() =~= s.take(k));
    } else {
        assert(s.take(k) =~= s);
    }
}

/// Parses an unsigned decimal number as `str::parse::<u64>` does.
pub fn parse_u64(s: &str) -> (r: Option<u64>)
    ensures
        r == parse_u64_of(s@),
{
    let v = chars_of(s);
    let start: usize = if v.len() > 0 && v[0] == '+' {
        1
    } else {
        0
    };
    let ghost d = v@.subrange(start as int, v.len() as int);
    assert(d =~= (if s@.len() > 0 && s@[0] == '+' {
        s@.drop_first()
    } else {
        s@
    }));
    if start == v.len() {
        return None;
    }
    let mut acc: u64 = 0;
    let mut i = start;
    assert(d.take(0) =~= Seq::<char>::empty());
    while i < v.len()
        invariant
            start <= i <= v.len(),
            start < v.len(),
            d == v@.subrange(start as int, v.len() as int),
            d == (if s@.len() > 0 && s@[0] == '+' {
                s@.drop_first()
            } else {
                s@
            }),
            forall|k: int| 0 <= k < i - start ==> is_digit(#[trigger] d[k]),
            acc == digits_value(d.take(i - start)),
        decreases v.len() - i,
    {
        let c = v[i];
        let u = c as u32;
        if u < 48 || u > 57 {
            proof {
                let k = i - start;
                assert(d[k] == c);
                assert(!is_digit(d[k]));
            }
            return None;
        }
        assert(d.take(i - start + 1).drop_last() =~= d.take(i - start));
        assert(d.take(i - start + 1).last() == c);
        let digit = (u - 48) as u64;
        match acc.checked_mul(10) {
            Some(m) => match m.checked_add(digit) {
                Some(n) => {
                    acc = n;
                },
                None => {
                    proof {
                        lemma_digits_value_prefix(d, i - start + 1);
                    }
                    return None;
                },
            },
            None => {
                proof {
                    lemma_digits_value_prefix(d, i - start + 1);
                }
                return None;
            },
        }
        i = i + 1;
    }
    assert(d.take(v.len() - start) =~= d);
    Some(acc)
}

/// Whether a declared Content-Length is over the upload cap (a missing or
/// unreadable value is not).
pub fn content_length_too_large(value: Option<&str>) -> (b: bool)
    ensures
        b == match value {
            Some(s) => match parse_u64_of(s@) {
                Some(n) => n > crate::MAX_BODY_SIZE as u64,
                None => false,
            },
            None => false,
        },
        b <==> value is Some && parse_u64_of(value.unwrap()@) is Some && parse_u64_of(
            value.unwrap()@,
        ).unwrap() > 1073741824,
{
    match value {
        Some(s) => match parse_u64(s) {
            Some(n) => n > crate::MAX_BODY_SIZE as u64,
            None => false,
        },
        None => false,
    }
}

/// Whether a multipart field is the uploaded file (named "file").
pub fn is_file_field(name: Option<&str>) -> (b: bool)
    ensures
        b == match name {
            Some(n) => n@ == "file"@,
            None => false,
        },
{
    match name {
        Some(n) => text::same_text(n, "file"),
        None => false,
    }
}

/// Uploads whose declared content type starts with `image/` are images;
/// everything else (no content type included) is a file.
pub fn upload_kind(content_type: Option<&str>) -> (k: MessageKind)
    ensures
        k == (match content_type {
            Some(t) => if text::has_prefix(t@, "image/"@) {
                MessageKind::Image
            } else {
                MessageKind::File
            },
            None => MessageKind::File,
        }),
        (k == MessageKind::Image) <==> (content_type is Some && content_type.unwrap()@.len() >= 6
            && content_type.unwrap()@.take(6) == seq!['i', 'm', 'a', 'g', 'e', '/']),
{
    proof {
        lemma_upload_kind_is_image_prefix(content_type);
    }
    match content_type {
        Some(t) => {
            let v = chars_of(t);
            let p = chars_of("image/");
            assert(v@.subrange(0, v.len() as int) =~= v@);
            if range_starts_with(&v, 0, v.len(), &p) {
                MessageKind::Image
            } else {
                MessageKind::File
            }
        },
        None => MessageKind::File,
    }
}

/// The original name of an upload, "unnamed" when the client gave none.
pub fn original_name(file_name: Option<&str>) -> (r: String)
    ensures
        r@ == match file_name {
            Some(n) => n@,
            None => "unnamed"@,
        },
{
    match file_name {
        Some(n) => string_from(n),
        None => string_from("unnamed"),
    }
}

/// Path separators and NUL cannot appear in a stored name.
pub open spec fn is_unsafe_name_char(c: char) -> bool {
    c == '/' || c == '\\' || c == '\0'
}

/// A file name with '/', '\\' and NUL replaced by '_'.
pub open spec fn safe_name_of(name: Seq<char>) -> Seq<char> {
    name.map_values(|c: char| if is_unsafe_name_char(c) { '_' } else { c })
}

/// A file name with '/', '\\' and NUL replaced by '_', so that it names a
/// file inside the data directory.
pub fn sanitize_file_name(name: &str) -> (r: String)
    ensures
        r@ == safe_name_of(name@),
        forall|i: int| 0 <= i < r@.len() ==> !is_unsafe_name_char(#[trigger] r@[i]),
{
    let v = chars_of(name);
    let mut r = String::new();
    let mut i: usize = 0;
    while i < v.len()
        invariant
            i <= v.len(),
            v@ == name@,
            r@ == safe_name_of(v@.take(i as int)),
        decreases v.len() - i,
    {
        let c = v[i];
        let d = if c == '/' || c == '\\' || c == '\0' {
            '_'
        } else {
            c
        };
        push_char(&mut r, d);
        assert(safe_name_of(v@.take(i + 1)) =~= safe_name_of(v@.take(i as int)).push(d));
        i = i + 1;
    }
    assert(v@.take(v.len() as int) =~= v@);
    r
}

/// The name under which an upload is stored: `<id>_<sanitized original>`.
pub open spec fn stored_name_of(id: Seq<char>, orig: Seq<char>) -> Seq<char> {
    id + seq!['_'] + safe_name_of(orig)
}

/// The stored name of an upload from its unique id and original name.
pub fn stored_file_name(id: &str, orig_name: &str) -> (r: String)
    ensures
        r@ == stored_name_of(id@, orig_name@),
{
    let mut r = string_from(id);
    push_char(&mut r, '_');
    let safe = sanitize_file_name(orig_name);
    push_str(&mut r, safe.as_str());
    assert(r@ =~= stored_name_of(id@, orig_name@));
    r
}

/// The hidden name an upload is written under until it is complete:
/// `.<stored name>.part`.
pub open spec fn partial_name_of(stored: Seq<char>) -> Seq<char> {
    seq!['.'] + stored + ".part"@
}

/// The temporary name of an upload in progress.
pub fn partial_file_name(stored: &str) -> (r: String)
    ensures
        r@ == partial_name_of(stored@),
{
    let mut r = String::new();
    push_char(&mut r, '.');
    push_str(&mut r, stored);
    push_str(&mut r, ".part");
    assert(r@ =~= partial_name_of(stored@));
    r
}

/// A lower-case hexadecimal digit.
pub open spec fn is_lower_hex(c: char) -> bool {
    (48 <= (c as u32) <= 57) || (97 <= (c as u32) <= 102)
}

/// The text of a version-4 UUID in hyphenated lower-case form: 36 characters,
/// hyphens at 8, 13, 18 and 23, hexadecimal digits elsewhere, the version
/// digit '4' at 14 and the variant digit (8, 9, a or b) at 19.
pub open spec fn is_uuid_v4_text(s: Seq<char>) -> bool {
    &&& s.len() == 36
    &&& forall|i: int|
        0 <= i < 36 ==> if i == 8 || i == 13 || i == 18 || i == 23 {
            #[trigger] s[i] == '-'
        } else {
            is_lower_hex(s[i])
        }
    &&& s[14] == '4'
    &&& s[19] == '8' || s[19] == '9' || s[19] == 'a' || s[19] == 'b'
}

/// A fresh random id from `uuid::Uuid::new_v4`, written with `to_string`.
///
/// Trusted: the text has the hyphenated lower-case form of a version-4 UUID
/// (the crate masks in the version and variant bits and formats through
/// `LowerHex`); which id comes out is left open, as it is random.
#[verifier::external_body]
fn new_uuid_text() -> (r: String)
    ensures
        is_uuid_v4_text(r@),
{
    uuid::Uuid::new_v4().to_string()
}

/// What the upload handler does with a file field.
pub struct UploadPlan {
    /// The name the client gave, "unnamed" when none.
    pub orig_name: String,
    pub kind: MessageKind,
    /// `<uuid>_<sanitized original name>`.
    pub stored_name: String,
    /// `.<stored name>.part`, the name used while the upload streams in.
    pub partial_name: String,
}

/// Plans the storage of an uploaded file field: a fresh unique stored name
/// that cannot leave the data directory, its temporary name, the original
/// name and the message kind.
pub fn plan_upload(file_name: Option<&str>, content_type: Option<&str>) -> (p: UploadPlan)
    ensures
        p.orig_name@ == match file_name {
            Some(n) => n@,
            None => "unnamed"@,
        },
        p.kind == upload_kind_of(content_type),
        (p.kind == MessageKind::Image) <==> (content_type is Some && content_type.unwrap()@.len() >= 6
            && content_type.unwrap()@.take(6) == seq!['i', 'm', 'a', 'g', 'e', '/']),
        exists|id: Seq<char>|
            is_uuid_v4_text(id) && p.stored_name@ == #[trigger] stored_name_of(id, p.orig_name@),
        p.partial_name@ == partial_name_of(p.stored_name@),
        forall|i: int|
            0 <= i < p.stored_name@.len() ==> !is_unsafe_name_char(#[trigger] p.stored_name@[i]),
{
    let orig_name = original_name(file_name);
    let kind = upload_kind(content_type);
    proof {
        lemma_upload_kind_is_image_prefix(content_type);
    }
    let id = new_uuid_text();
    let stored_name = stored_file_name(id.as_str(), orig_name.as_str());
    let partial_name = partial_file_name(stored_name.as_str());
    proof {
        let s = stored_name@;
        assert forall|i: int| 0 <= i < s.len() implies !is_unsafe_name_char(#[trigger] s[i]) by {
            if i < 36 {
                assert(s[i] == id@[i]);
                if i == 8 || i == 13 || i == 18 || i == 23 {
                    assert(id@[i] == '-');
                } else {
                    assert(is_lower_hex(id@[i]));
                }
            } else if i == 36 {
            } else {
                assert(s[i] == safe_name_of(orig_name@)[i - 37]);
            }
        }
    }
    UploadPlan { orig_name, kind, stored_name, partial_name }
}

/// An upload is an image exactly when its content type is given and starts
/// with the six characters `image/`; any other upload is a file.
pub proof fn lemma_upload_kind_is_image_prefix(content_type: Option<&str>)
    ensures
        (upload_kind_of(content_type) == MessageKind::Image) <==> (content_type is Some
            && content_type.unwrap()@.len() >= 6 && content_type.unwrap()@.take(6) == seq![
            'i',
            'm',
            'a',
            'g',
            'e',
            '/',
        ]),
        (upload_kind_of(content_type) == MessageKind::Image) || (upload_kind_of(content_type)
            == MessageKind::File),
{
    reveal_strlit("image/");
    assert("image/"@ =~= seq!['i', 'm', 'a', 'g', 'e', '/']);
}

/// The kind of an upload with the given content type.
pub open spec fn upload_kind_of(content_type: Option<&str>) -> MessageKind {
    match content_type {
        Some(t) => if text::has_prefix(t@, "image/"@) {
            MessageKind::Image
        } else {
            MessageKind::File
        },
        None => MessageKind::File,
    }
}

// ---------------------------------------------------------------------------
// Replies
// ---------------------------------------------------------------------------

/// An HTTP status with a plain-text body.
#[derive(Clone, Copy)]
pub struct Reply {
    pub status: u16,
    pub body: &'static str,
}

/// The reply to an upload refused for its size.
pub fn too_large_reply() -> (r: Reply)
    ensures
        r.status == 413,
        r.body@ == "file exceeds the 1GB upload limit"@,
{
    Reply { status: 413, body: "file exceeds the 1GB upload limit" }
}

/// The reply once an upload has been streamed to disk: an empty file is a
/// bad request (and is not kept); anything else is stored and created.
pub fn stored_upload_reply(size: u64) -> (r: Reply)
    ensures
        size == 0 ==> r.status == 400 && r.body@ == "empty file"@,
        size > 0 ==> r.status == 201 && r.body@ == ""@,
{
    if size == 0 {
        Reply { status: 400, body: "empty file" }
    } else {
        Reply { status: 201, body: "" }
    }
}

/// The reply to an upload request without a "file" field.
pub fn no_file_field_reply() -> (r: Reply)
    ensures
        r.status == 400,
        r.body@ == "no file field"@,
{
    Reply { status: 400, body: "no file field" }
}

/// The reply to a recall request: 200 when the sender recalled it, 403 for
/// anyone else, 404 when there is no such message.
pub fn recall_reply(d: RecallDecision) -> (r: Reply)
    ensures
        d == RecallDecision::Allowed ==> r.status == 200 && r.body@ == ""@,
        d == RecallDecision::Denied ==> r.status == 403 && r.body@ == "not the message owner"@,
        d == RecallDecision::NotFound ==> r.status == 404 && r.body@ == "message not found"@,
{
    match d {
        RecallDecision::Allowed => Reply { status: 200, body: "" },
        RecallDecision::Denied => Reply { status: 403, body: "not the message owner" },
        RecallDecision::NotFound => Reply { status: 404, body: "message not found" },
    }
}

/// What `/api/me` answers for a client.
pub fn me_response(hostname: &str, ip: &str) -> (r: MeResponse)
    ensures
        r.hostname@ == hostname@,
        r.ip@ == ip@,
        r.display@ == identity::display_text(hostname@, ip@),
        r.avatar_url@ == avatar::avatar_url_text(hostname@, ip@),
{
    MeResponse {
        display: display_name(hostname, ip),
        avatar_url: avatar_url(hostname, ip),
        hostname: string_from(hostname),
        ip: string_from(ip),
    }
}

// ---------------------------------------------------------------------------
// Index page
// ---------------------------------------------------------------------------

/// `s` with every occurrence of `from` replaced by `to`, matching from left
/// to right without overlaps (`str::replace` for a non-empty `from`).
pub open spec fn replaced(s: Seq<char>, from: Seq<char>, to: Seq<char>) -> Seq<char>
    decreases s.len(),
{
    if s.len() == 0 {
        seq![]
    } else if from.len() > 0 && text::has_prefix(s, from) {
        to + replaced(s.skip(from.len() as int), from, to)
    } else {
        seq![s[0]] + replaced(s.drop_first(), from, to)
    }
}

/// Replaces every occurrence of the non-empty `from` in `s` by `to`.
pub fn replace_all(s: &str, from: &str, to: &str) -> (r: String)
    requires
        from@.len() > 0,
    ensures
        r@ == replaced(s@, from@, to@),
{
    let v = chars_of(s);
    let f = chars_of(from);
    let n = v.len();
    let mut out = String::new();
    let mut i: usize = 0;
    assert(v@.subrange(0, n as int) =~= v@);
    while i < n
        invariant
            i <= n == v.len(),
            v@ == s@,
            f@ == from@,
            f@.len() > 0,
            out@ + replaced(v@.subrange(i as int, n as int), f@, to@) == replaced(s@, f@, to@),
        decreases n - i,
    {
        let ghost rest = v@.subrange(i as int, n as int);
        if range_starts_with(&v, i, n, &f) {
            let ghost o = out@;
            push_str(&mut out, to);
            proof {
                let next = v@.subrange(i + f.len(), n as int);
                assert(rest.skip(f@.len() as int) =~= next);
                assert(replaced(rest, f@, to@) == to@ + replaced(next, f@, to@));
                assert(out@ + replaced(next, f@, to@) =~= o + (to@ + replaced(next, f@, to@)));
            }
            i = i + f.len();
        } else {
            let ghost o = out@;
            push_char(&mut out, v[i]);
            proof {
                let next = v@.subrange(i + 1, n as int);
                assert(rest.drop_first() =~= next);
                assert(seq![rest[0]] + replaced(next, f@, to@) == replaced(rest, f@, to@));
                assert(out@ + replaced(next, f@, to@) =~= o + (seq![rest[0]] + replaced(
                    next,
                    f@,
                    to@,
                )));
            }
            i = i + 1;
        }
    }
    assert(v@.subrange(n as int, n as int) =~= Seq::<char>::empty());
    assert(out@ + Seq::<char>::empty() =~= out@);
    out
}

/// The index page: the template with the server address, the language code
/// and the JSON of both string tables put in place of their placeholders.
pub open spec fn index_page(template: Seq<char>, server_ip: Seq<char>, lang_code: Seq<char>, tables_json: Seq<char>) -> Seq<char> {
    replaced(
        replaced(replaced(template, "__SERVER_IP__"@, server_ip), "__LANG__"@, lang_code),
        "__I18N_ALL_JSON__"@,
        tables_json,
    )
}

/// Fills in the index page template.
pub fn render_index(template: &str, server_ip: &str, lang_code: &str, tables_json: &str) -> (r: String)
    ensures
        r@ == index_page(template@, server_ip@, lang_code@, tables_json@),
{
    proof {
        reveal_strlit("__SERVER_IP__");
        reveal_strlit("__LANG__");
        reveal_strlit("__I18N_ALL_JSON__");
    }
    let a = replace_all(template, "__SERVER_IP__", server_ip);
    let b = replace_all(a.as_str(), "__LANG__", lang_code);
    replace_all(b.as_str(), "__I18N_ALL_JSON__", tables_json)
}

// ---------------------------------------------------------------------------
// Laws
// ---------------------------------------------------------------------------

/// A message-list page holds 10 messages unless the client asks otherwise,
/// and never fewer than 1 nor more than 50: a size within 1..=50 is taken
/// as asked, a smaller one gives 1 and a larger one 50.
pub proof fn lemma_page_limit_clamps(limit: Option<i64>)
    ensures
        limit is None ==> page_limit_of(limit) == 10,
        limit is Some && 1 <= limit.unwrap() <= 50 ==> page_limit_of(limit) == limit.unwrap(),
        limit is Some && limit.unwrap() < 1 ==> page_limit_of(limit) == 1,
        limit is Some && limit.unwrap() > 50 ==> page_limit_of(limit) == 50,
{
}

/// The value of the decimal text of `n` is `n`.
proof fn lemma_digits_value_of_dec(n: nat)
    ensures
        digits_value(text::dec_digits(n)) == n,
        all_digits(text::dec_digits(n)),
        text::dec_digits(n).len() > 0,
    decreases n,
{
    text::lemma_dec_digits_len(n);
    if n >= 10 {
        lemma_digits_value_of_dec(n / 10);
        let d = text::dec_digits(n);
        assert(d.drop_last() =~= text::dec_digits(n / 10));
        assert((text::digit_char((n % 10) as nat) as u32) == 48 + n % 10);
        assert(d.last() == text::digit_char((n % 10) as nat));
        assert(digits_value(d) == digits_value(text::dec_digits(n / 10)) * 10 + (n % 10));
        assert((n / 10) * 10 + n % 10 == n) by (nonlinear_arith);
        assert forall|i: int| 0 <= i < d.len() implies is_digit(#[trigger] d[i]) by {}
    } else {
        let d = text::dec_digits(n);
        assert((text::digit_char(n) as u32) == 48 + n);
        assert(d.drop_last() =~= Seq::<char>::empty());
        assert(digits_value(d) == digits_value(Seq::<char>::empty()) * 10 + n);
        assert forall|i: int| 0 <= i < d.len() implies is_digit(#[trigger] d[i]) by {}
    }
}

/// Reading back the decimal text of any 64-bit number gives that number:
/// `parse_u64` undoes the decimal writing of `push_decimal`.
pub proof fn lemma_parse_u64_reads_decimal(n: u64)
    ensures
        parse_u64_of(text::dec_digits(n as nat)) == Some(n),
{
    lemma_digits_value_of_dec(n as nat);
    let d = text::dec_digits(n as nat);
    assert(is_digit(d[0]));
}

/// A declared Content-Length is refused exactly when it reads as a number
/// above 1 GiB (1073741824 bytes); 1 GiB itself is accepted.
pub proof fn lemma_upload_cap_is_one_gib()
    ensures
        crate::MAX_BODY_SIZE as u64 == 1073741824u64,
{
}

/// A sanitized name has the length of the original; '/', '\\' and NUL each
/// become '_', and every other character stays where it was.
pub proof fn lemma_sanitized_name(name: Seq<char>)
    ensures
        safe_name_of(name).len() == name.len(),
        forall|i: int|
            0 <= i < name.len() ==> {
                let c = #[trigger] safe_name_of(name)[i];
                &&& c != '/' && c != '\\' && c != '\0'
                &&& (name[i] != '/' && name[i] != '\\' && name[i] != '\0') ==> c == name[i]
                &&& (name[i] == '/' || name[i] == '\\' || name[i] == '\0') ==> c == '_'
            },
{
}

/// `from` does not occur anywhere in `s`.
pub open spec fn occurs_nowhere(s: Seq<char>, from: Seq<char>) -> bool {
    forall|i: int| 0 <= i <= s.len() ==> !text::has_prefix(#[trigger] s.skip(i), from)
}

/// Replacing a text that does not occur leaves the string as it is; so a
/// template without placeholders renders unchanged.
pub proof fn lemma_replace_absent(s: Seq<char>, from: Seq<char>, to: Seq<char>)
    requires
        occurs_nowhere(s, from),
    ensures
        replaced(s, from, to) == s,
    decreases s.len(),
{
    if s.len() > 0 {
        assert(s.skip(0) =~= s);
        let t = s.drop_first();
        assert forall|i: int| 0 <= i <= t.len() implies !text::has_prefix(#[trigger] t.skip(i), from) by {
            assert(t.skip(i) =~= s.skip(i + 1));
        }
        lemma_replace_absent(t, from, to);
        assert(seq![s[0]] + t =~= s);
    }
}

/// A posted message is stored without surrounding whitespace: when one is
/// accepted it is not empty and neither starts nor ends with whitespace, and
/// it is refused exactly when the content is whitespace only.
pub proof fn lemma_post_content_trimmed(content: Seq<char>)
    ensures
        text::trim_ws(content).len() > 0 ==> !text::is_ws(text::trim_ws(content)[0]) && !text::is_ws(
            text::trim_ws(content).last(),
        ),
        text::trim_ws(content).len() == 0 <==> forall|i: int| 0 <= i < content.len() ==> text::is_ws(
            #[trigger] content[i],
        ),
{
    text::lemma_trim_ws_shape(content);
}

} // verus!
