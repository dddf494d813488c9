//! Per-client avatars: a stable FNV-1a hash of the client identity picks the
//! circle colour and the cache file name; the letter is the first letter of
//! the hostname. Writing the SVG file to disk is left to the server program.
use vstd::prelude::*;
use crate::text;
use crate::text::{chars_of, push_char, push_decimal, push_hex_fixed, push_str, string_from, to_ascii_upper};

verus! {

/// FNV-1a 64-bit offset basis.
pub const FNV_OFFSET: u64 = 0xcbf29ce484222325;

/// FNV-1a 64-bit prime.
pub const FNV_PRIME: u64 = 0x100000001b3;

/// One FNV-1a step: xor in the byte, then multiply modulo 2^64.
pub open spec fn fnv_step(h: u64, b: u8) -> u64 {
    (((h ^ (b as u64)) as nat * FNV_PRIME as nat) % 0x1_0000_0000_0000_0000) as u64
}

/// FNV-1a over `bytes`, starting from the state `h`.
pub open spec fn fnv_from(h: u64, bytes: Seq<u8>) -> u64
    decreases bytes.len(),
{
    if bytes.len() == 0 {
        h
    } else {
        fnv_step(fnv_from(h, bytes.drop_last()), bytes.last())
    }
}

/// The FNV-1a 64-bit hash of `bytes`.
pub open spec fn fnv1a_of(bytes: Seq<u8>) -> u64 {
    fnv_from(FNV_OFFSET, bytes)
}

/// The text that identifies a client: `hostname+ip`.
pub open spec fn identity_text(hostname: Seq<char>, ip: Seq<char>) -> Seq<char> {
    hostname + seq!['+'] + ip
}

/// The identity hash: FNV-1a over the UTF-8 bytes of `hostname+ip`.
pub open spec fn identity_hash_of(hostname: Seq<char>, ip: Seq<char>) -> u64 {
    fnv1a_of(vstd::utf8::encode_utf8(identity_text(hostname, ip)))
}

/// The avatar hue, in [0, 360).
pub open spec fn hue_of(hostname: Seq<char>, ip: Seq<char>) -> u32 {
    (identity_hash_of(hostname, ip) % 360) as u32
}

/// The first letter of the hostname, or else of the IP, or else '?',
/// upper-cased (ASCII).
pub open spec fn first_letter_of(hostname: Seq<char>, ip: Seq<char>) -> char {
    text::ascii_upper(
        if hostname.len() > 0 {
            hostname[0]
        } else if ip.len() > 0 {
            ip[0]
        } else {
            '?'
        },
    )
}

/// The SVG before the hue.
pub open spec fn svg_head() -> Seq<char> {
    "<svg xmlns=\"http://www.w3.org/2000/svg\" width=\"96\" height=\"96\"><circle cx=\"48\" cy=\"48\" r=\"48\" fill=\"hsl("@
}

/// The SVG between the hue and the letter.
pub open spec fn svg_middle() -> Seq<char> {
    ",55%,45%)\"/><text x=\"48\" y=\"64\" font-size=\"48\" font-family=\"sans-serif\" fill=\"#ffffff\" text-anchor=\"middle\">"@
}

/// The SVG after the letter.
pub open spec fn svg_tail() -> Seq<char> {
    "</text></svg>"@
}

/// A 96x96 circle of hue `hue` (fixed mid-tone saturation and lightness)
/// with `letter` in white in its middle.
pub open spec fn svg_text(letter: char, hue: u32) -> Seq<char> {
    svg_head() + text::dec_digits(hue as nat) + svg_middle() + seq![letter] + svg_tail()
}

/// `<16 lower-case hex digits of the identity hash>.svg`.
pub open spec fn avatar_file_text(hostname: Seq<char>, ip: Seq<char>) -> Seq<char> {
    text::hex_fixed(identity_hash_of(hostname, ip) as nat, 16) + ".svg"@
}

/// `/files/icons/<avatar file name>`.
pub open spec fn avatar_url_text(hostname: Seq<char>, ip: Seq<char>) -> Seq<char> {
    "/files/icons/"@ + avatar_file_text(hostname, ip)
}

// ---------------------------------------------------------------------------
// Lemmas
// ---------------------------------------------------------------------------

/// FNV over a concatenation continues from the state after the first part.
pub proof fn lemma_fnv_from_concat(h: u64, a: Seq<u8>, b: Seq<u8>)
    ensures
        fnv_from(h, a + b) == fnv_from(fnv_from(h, a), b),
    decreases b.len(),
{
    if b.len() > 0 {
        assert((a + b).drop_last() =~= a + b.drop_last());
        lemma_fnv_from_concat(h, a, b.drop_last());
    } else {
        assert(a + b =~= a);
    }
}

/// UTF-8 encoding distributes over concatenation.
pub proof fn lemma_encode_utf8_concat(a: Seq<char>, b: Seq<char>)
    ensures
        vstd::utf8::encode_utf8(a + b) == vstd::utf8::encode_utf8(a) + vstd::utf8::encode_utf8(b),
    decreases a.len(),
{
    if a.len() > 0 {
        assert((a + b).drop_first() =~= a.drop_first() + b);
        lemma_encode_utf8_concat(a.drop_first(), b);
        assert(vstd::utf8::encode_utf8(a + b) =~= vstd::utf8::encode_utf8(a) + vstd::utf8::encode_utf8(b));
    } else {
        assert(a + b =~= b);
        assert(vstd::utf8::encode_utf8(a) + vstd::utf8::encode_utf8(b) =~= vstd::utf8::encode_utf8(b));
    }
}

/// The UTF-8 encoding of "+" is the single byte 43.
proof fn lemma_plus_utf8()
    ensures
        vstd::utf8::encode_utf8(seq!['+']) == seq![43u8],
{
    assert((43u32 & 0x7Fu32) == 43u32) by (bit_vector);
    assert(('+' as u32) == 43u32);
    assert(seq!['+'].drop_first() =~= Seq::<char>::empty());
    assert(vstd::utf8::encode_utf8(Seq::<char>::empty()) =~= Seq::<u8>::empty());
    assert(vstd::utf8::encode_scalar(43u32) =~= seq![43u8]);
    assert(vstd::utf8::encode_utf8(seq!['+']) =~= seq![43u8]);
}

/// The identity hash is the hash of the hostname bytes, continued with the
/// byte of '+', then with the IP bytes.
proof fn lemma_identity_hash_parts(hostname: Seq<char>, ip: Seq<char>)
    ensures
        identity_hash_of(hostname, ip) == fnv_from(
            fnv_step(fnv_from(FNV_OFFSET, vstd::utf8::encode_utf8(hostname)), 43u8),
            vstd::utf8::encode_utf8(ip),
        ),
{
    let hb = vstd::utf8::encode_utf8(hostname);
    let pb = vstd::utf8::encode_utf8(seq!['+']);
    let ib = vstd::utf8::encode_utf8(ip);
    lemma_plus_utf8();
    assert(seq![43u8].drop_last() =~= Seq::<u8>::empty());
    assert(fnv_from(fnv_from(FNV_OFFSET, hb), Seq::<u8>::empty()) == fnv_from(FNV_OFFSET, hb));
    assert(fnv_from(fnv_from(FNV_OFFSET, hb), pb) == fnv_step(fnv_from(FNV_OFFSET, hb), 43u8));
    lemma_encode_utf8_concat(hostname + seq!['+'], ip);
    lemma_encode_utf8_concat(hostname, seq!['+']);
    lemma_fnv_from_concat(FNV_OFFSET, hb + pb, ib);
    lemma_fnv_from_concat(FNV_OFFSET, hb, pb);
}

/// FNV-1a 64 as published: the hash of no bytes is the offset basis
/// 0xcbf29ce484222325, and each further byte is xor-ed in and the result
/// multiplied by the prime 0x100000001b3, modulo 2^64.
pub proof fn lemma_fnv1a_is_standard(bytes: Seq<u8>, b: u8)
    ensures
        fnv1a_of(Seq::<u8>::empty()) == 0xcbf29ce484222325u64,
        fnv1a_of(bytes.push(b)) as nat == ((fnv1a_of(bytes) ^ (b as u64)) as nat * 0x100000001b3nat)
            % 0x1_0000_0000_0000_0000nat,
{
    assert(bytes.push(b).drop_last() =~= bytes);
}

/// The colour and the file name of an avatar come from one hash, that of
/// the text `hostname+ip`: the hue is that hash modulo 360, and the file
/// name is its 16 lower-case hex digits followed by ".svg".
pub proof fn lemma_avatar_from_identity_hash(hostname: Seq<char>, ip: Seq<char>)
    ensures
        identity_hash_of(hostname, ip) == fnv1a_of(vstd::utf8::encode_utf8(hostname + "+"@ + ip)),
        hue_of(hostname, ip) as int == identity_hash_of(hostname, ip) as int % 360,
        avatar_file_text(hostname, ip) == text::hex_fixed(identity_hash_of(hostname, ip) as nat, 16)
            + ".svg"@,
        avatar_file_text(hostname, ip).len() == 20,
{
    reveal_strlit("+");
    reveal_strlit(".svg");
    assert("+"@ =~= seq!['+']);
    text::lemma_hex_fixed_len(identity_hash_of(hostname, ip) as nat, 16);
}

/// The avatar letter is the first character of the hostname, of the IP
/// when the hostname is empty, and '?' when both are; a lower-case ASCII
/// letter is shown upper-case, anything else as it is.
pub proof fn lemma_first_letter(hostname: Seq<char>, ip: Seq<char>)
    ensures
        ({
            let c = if hostname.len() > 0 {
                hostname[0]
            } else if ip.len() > 0 {
                ip[0]
            } else {
                '?'
            };
            &&& (97 <= c as u32 <= 122) ==> first_letter_of(hostname, ip) as u32 == c as u32 - 32
            &&& !(97 <= c as u32 <= 122) ==> first_letter_of(hostname, ip) == c
        }),
        hostname.len() == 0 && ip.len() == 0 ==> first_letter_of(hostname, ip) == '?',
{
}

// ---------------------------------------------------------------------------
// Code
// ---------------------------------------------------------------------------

/// Continues an FNV-1a hash over `bytes`.
fn fnv_extend(h: u64, bytes: &[u8]) -> (r: u64)
    ensures
        r == fnv_from(h, bytes@),
{
    let mut hash = h;
    let mut i: usize = 0;
    while i < bytes.len()
        invariant
            i <= bytes.len(),
            hash == fnv_from(h, bytes@.take(i as int)),
        decreases bytes.len() - i,
    {
        assert(bytes@.take(i + 1).drop_last() =~= bytes@.take(i as int));
        hash = (hash ^ (bytes[i] as u64)).wrapping_mul(FNV_PRIME);
        i = i + 1;
    }
    assert(bytes@.take(bytes.len() as int) =~= bytes@);
    hash
}

/// FNV-1a 64-bit hash of the bytes of `s` — a fixed algorithm, so avatar
/// colours and cache file names stay stable across Rust versions and
/// platforms.
pub fn fnv1a(s: &str) -> (r: u64)
    ensures
        r == fnv1a_of(vstd::utf8::encode_utf8(s@)),
{
    fnv_extend(FNV_OFFSET, s.as_bytes())
}

/// The stable hash of a client identity (`hostname+ip`).
pub fn identity_hash(hostname: &str, ip: &str) -> (r: u64)
    ensures
        r == identity_hash_of(hostname@, ip@),
{
    let h1 = fnv_extend(FNV_OFFSET, hostname.as_bytes());
    let h2 = (h1 ^ 43u64).wrapping_mul(FNV_PRIME);
    assert(h2 == fnv_step(h1, 43u8));
    let h3 = fnv_extend(h2, ip.as_bytes());
    proof {
        lemma_identity_hash_parts(hostname@, ip@);
    }
    h3
}

/// Hue in [0, 360) derived from the identity hash.
pub fn hue(hostname: &str, ip: &str) -> (r: u32)
    ensures
        r == hue_of(hostname@, ip@),
        r < 360,
{
    (identity_hash(hostname, ip) % 360) as u32
}

/// First letter of the hostname, upper-cased; falls back to the IP's first
/// character, then '?'.
pub fn first_letter(hostname: &str, ip: &str) -> (r: char)
    ensures
        r == first_letter_of(hostname@, ip@),
{
    let h = chars_of(hostname);
    if h.len() > 0 {
        return to_ascii_upper(h[0]);
    }
    let i = chars_of(ip);
    if i.len() > 0 {
        return to_ascii_upper(i[0]);
    }
    to_ascii_upper('?')
}

/// The avatar SVG: a circle of the given hue with a white letter.
pub fn svg(letter: char, hue: u32) -> (r: String)
    ensures
        r@ == svg_text(letter, hue),
{
    let mut s = String::new();
    push_str(
        &mut s,
        "<svg xmlns=\"http://www.w3.org/2000/svg\" width=\"96\" height=\"96\"><circle cx=\"48\" cy=\"48\" r=\"48\" fill=\"hsl(",
    );
    push_decimal(&mut s, hue as u64);
    push_str(
        &mut s,
        ",55%,45%)\"/><text x=\"48\" y=\"64\" font-size=\"48\" font-family=\"sans-serif\" fill=\"#ffffff\" text-anchor=\"middle\">",
    );
    push_char(&mut s, letter);
    push_str(&mut s, "</text></svg>");
    assert(s@ =~= svg_text(letter, hue));
    s
}

/// The avatar file of a client: `<hash as 16 hex digits>.svg`.
pub fn avatar_file_name(hostname: &str, ip: &str) -> (r: String)
    ensures
        r@ == avatar_file_text(hostname@, ip@),
{
    let mut s = String::new();
    push_hex_fixed(&mut s, identity_hash(hostname, ip), 16);
    push_str(&mut s, ".svg");
    assert(s@ =~= avatar_file_text(hostname@, ip@));
    s
}

/// Where a client's avatar is served: `/files/icons/<avatar file name>`.
pub fn avatar_url(hostname: &str, ip: &str) -> (r: String)
    ensures
        r@ == avatar_url_text(hostname@, ip@),
{
    let mut s = string_from("/files/icons/");
    let f = avatar_file_name(hostname, ip);
    push_str(&mut s, f.as_str());
    assert(s@ =~= avatar_url_text(hostname@, ip@));
    s
}

/// The SVG stored for a client: its first letter on its hue.
pub fn avatar_svg(hostname: &str, ip: &str) -> (r: String)
    ensures
        r@ == svg_text(first_letter_of(hostname@, ip@), hue_of(hostname@, ip@)),
{
    svg(first_letter(hostname, ip), hue(hostname, ip))
}

} // verus!
