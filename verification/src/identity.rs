//! Client identity: the packets used to ask a LAN device for its name
//! (mDNS reverse PTR query, NetBIOS node status query), the decoding of
//! their answers, and the clean-up of the names found.
//!
//! The sockets, timeouts and system resolver calls live with the server
//! program; this module holds what is computed from plain bytes and strings.
use vstd::prelude::*;
use crate::text;
use crate::text::{
    chars_of, push_decimal, push_str, range_ends_with, string_from, string_of, trim, trim_end_char_bound,
    trim_end_ws_bound,
};

verus! {

// ---------------------------------------------------------------------------
// Specifications
// ---------------------------------------------------------------------------

/// Big-endian value of two bytes.
pub open spec fn be16(hi: u8, lo: u8) -> int {
    hi as int * 256 + lo as int
}

/// A DNS label: its length byte followed by its (ASCII) characters.
pub open spec fn label(s: Seq<char>) -> Seq<u8> {
    seq![s.len() as u8] + text::ascii_bytes(s)
}

/// The 12-byte DNS header with the given id and `qdcount = 1`.
pub open spec fn query_header(id: u8) -> Seq<u8> {
    seq![0u8, id, 0, 0, 0, 1, 0, 0, 0, 0, 0, 0]
}

/// The mDNS PTR query for `a.b.c.d`: the name `d.c.b.a.in-addr.arpa`,
/// QTYPE = PTR (12) and QCLASS = IN with the unicast-response bit set.
pub open spec fn ptr_query(o: Seq<u8>) -> Seq<u8> {
    query_header(0) + label(text::dec_digits(o[3] as nat)) + label(text::dec_digits(o[2] as nat)) + label(
        text::dec_digits(o[1] as nat),
    ) + label(text::dec_digits(o[0] as nat)) + label("in-addr"@) + label("arpa"@) + seq![
        0u8,
        0,
        12,
        0x80,
        1,
    ]
}

/// The NetBIOS node status query: id 1, the wildcard name `*` padded with
/// fifteen zero bytes and first-level encoded ("CK" then thirty 'A'),
/// QTYPE = NBSTAT (0x21), QCLASS = IN.
pub open spec fn nbstat_query() -> Seq<u8> {
    query_header(1) + seq![0x20u8] + text::ascii_bytes("CK"@) + Seq::new(30, |_i: int| 65u8) + seq![
        0u8,
        0,
        0x21,
        0,
        1,
    ]
}

/// The character shown for one byte of a NetBIOS name: graphic ASCII as is,
/// anything else as a space.
pub open spec fn nb_name_char(b: u8) -> char {
    if 0x21 <= b <= 0x7e {
        b as char
    } else {
        ' '
    }
}

/// The name held by an 18-byte NBSTAT entry: its first 15 bytes, shown,
/// with trailing whitespace removed.
pub open spec fn entry_name(e: Seq<u8>) -> Seq<char> {
    text::trim_end_ws(e.take(15).map_values(|b: u8| nb_name_char(b)))
}

/// The 15 name bytes of an entry as characters: graphic ASCII as is,
/// anything else as a space.
pub open spec fn shown_name(e: Seq<u8>) -> Seq<char> {
    Seq::new(15, |i: int| if 0x21 <= e[i] <= 0x7e { e[i] as char } else { ' ' })
}

/// The name of an entry is all of its 15 name bytes shown, with only the
/// trailing spaces removed: it is a prefix of those 15 characters, only
/// spaces follow it, it does not end in a space, and when all 15 bytes are
/// graphic the name is all 15 characters.
pub proof fn lemma_entry_name(e: Seq<u8>)
    requires
        e.len() == 18,
    ensures
        entry_name(e).len() <= 15,
        forall|i: int| 0 <= i < entry_name(e).len() ==> #[trigger] entry_name(e)[i] == shown_name(e)[i],
        forall|i: int| entry_name(e).len() <= i < 15 ==> #[trigger] shown_name(e)[i] == ' ',
        entry_name(e).len() > 0 ==> shown_name(e)[entry_name(e).len() - 1] != ' ',
        (forall|i: int| 0 <= i < 15 ==> 0x21 <= #[trigger] e[i] <= 0x7e) ==> entry_name(e)
            == shown_name(e),
{
    let sh = shown_name(e);
    let m = e.take(15).map_values(|b: u8| nb_name_char(b));
    assert(m =~= sh);
    text::lemma_trim_end_ws_shape(sh);
    let r = entry_name(e);
    assert forall|i: int| 0 <= i < 15 && sh[i] != ' ' implies !text::is_ws(#[trigger] sh[i]) by {
        let b = e[i];
        assert(0x21 <= b <= 0x7e);
        assert((b as char) as u32 == b as u32);
    }
    assert forall|i: int| r.len() <= i < 15 implies #[trigger] sh[i] == ' ' by {
        assert(text::is_ws(sh[i]));
    }
    if forall|i: int| 0 <= i < 15 ==> 0x21 <= #[trigger] e[i] <= 0x7e {
        if r.len() < 15 {
            let k = r.len() as int;
            assert(sh[k] == ' ');
            assert(0x21 <= e[k] <= 0x7e);
            assert((e[k] as char) as u32 == e[k] as u32);
        }
        assert(r =~= sh.take(15));
        assert(sh.take(15) =~= sh);
    }
}

/// An entry is the machine name when its suffix byte is 0x00 and the group
/// bit of its flags is clear.
pub open spec fn is_machine_entry(e: Seq<u8>) -> bool {
    e[15] == 0 && ((e[16] as u16) * 256 + (e[17] as u16)) as u16 & 0x8000u16 == 0
}

/// The first machine name among entries `i..count` (18 bytes each).
pub open spec fn first_machine_name(entries: Seq<u8>, count: int, i: int) -> Option<Seq<char>>
    decreases count - i,
{
    if i >= count {
        None
    } else {
        let e = entries.subrange(18 * i, 18 * i + 18);
        if is_machine_entry(e) && entry_name(e).len() > 0 {
            Some(entry_name(e))
        } else {
            first_machine_name(entries, count, i + 1)
        }
    }
}

/// The entry at place `i` of an NBSTAT name table.
pub open spec fn nb_entry(entries: Seq<u8>, i: int) -> Seq<u8> {
    entries.subrange(18 * i, 18 * i + 18)
}

/// A unique name for the machine itself: suffix byte 0x00 and the group bit
/// (the top bit of the flags' first byte) clear.
proof fn lemma_machine_entry_bytes(e: Seq<u8>)
    requires
        e.len() == 18,
    ensures
        is_machine_entry(e) <==> e[15] == 0 && e[16] < 0x80,
{
    let hi = e[16];
    let lo = e[17];
    assert(((hi as u16) * 256 + (lo as u16)) as u16 & 0x8000u16 == 0 <==> hi < 0x80u8) by (bit_vector);
}

/// The search from place `k` on gives the first entry there that is a
/// unique machine name with a non-empty name.
proof fn lemma_first_machine_from(entries: Seq<u8>, count: int, k: int)
    requires
        0 <= k <= count,
        entries.len() >= count * 18,
    ensures
        match first_machine_name(entries, count, k) {
            Some(n) => exists|i: int|
                k <= i < count && #[trigger] nb_entry(entries, i)[15] == 0 && nb_entry(entries, i)[16] < 0x80
                    && n == entry_name(nb_entry(entries, i)) && n.len() > 0 && forall|j: int|
                    k <= j < i ==> !(#[trigger] nb_entry(entries, j)[15] == 0 && nb_entry(entries, j)[16] < 0x80
                        && entry_name(nb_entry(entries, j)).len() > 0),
            None => forall|i: int|
                k <= i < count ==> !(#[trigger] nb_entry(entries, i)[15] == 0 && nb_entry(entries, i)[16] < 0x80
                    && entry_name(nb_entry(entries, i)).len() > 0),
        },
    decreases count - k,
{
    if k < count {
        let e = nb_entry(entries, k);
        assert(18 * k + 18 <= count * 18) by (nonlinear_arith)
            requires k < count;
        lemma_machine_entry_bytes(e);
        lemma_first_machine_from(entries, count, k + 1);
        if is_machine_entry(e) && entry_name(e).len() > 0 {
            assert(first_machine_name(entries, count, k) == Some(entry_name(e)));
        }
    }
}

/// The machine name of a node status table is that of its first entry whose
/// suffix is 0x00, whose group bit is clear and whose name is not blank;
/// every entry before it fails one of these, and when none passes there is
/// no name.
pub proof fn lemma_nbstat_first_machine_entry(entries: Seq<u8>, count: int)
    requires
        0 <= count,
        entries.len() >= count * 18,
    ensures
        match first_machine_name(entries, count, 0) {
            Some(n) => exists|i: int|
                0 <= i < count && #[trigger] nb_entry(entries, i)[15] == 0 && nb_entry(entries, i)[16] < 0x80
                    && n == entry_name(nb_entry(entries, i)) && n.len() > 0 && forall|j: int|
                    0 <= j < i ==> !(#[trigger] nb_entry(entries, j)[15] == 0 && nb_entry(entries, j)[16] < 0x80
                        && entry_name(nb_entry(entries, j)).len() > 0),
            None => forall|i: int|
                0 <= i < count ==> !(#[trigger] nb_entry(entries, i)[15] == 0 && nb_entry(entries, i)[16] < 0x80
                    && entry_name(nb_entry(entries, i)).len() > 0),
        },
{
    lemma_first_machine_from(entries, count, 0);
}

/// The computer name carried by a NetBIOS node status response, if any.
///
/// Layout: a 12-byte header (response bit, answer count), the echoed
/// question (a 0x20 label of 32 encoded characters, the root label,
/// type and class), then one answer whose name is a compression pointer,
/// of type NBSTAT, whose data is a count followed by 18-byte name entries.
pub open spec fn nbstat_name(buf: Seq<u8>) -> Option<Seq<char>> {
    if buf.len() < 12 || buf[2] & 0x80u8 == 0 {
        None
    } else if be16(buf[6], buf[7]) == 0 {
        None
    } else if buf.len() <= 12 || buf[12] != 0x20 {
        None
    } else if buf.len() <= 45 || buf[45] != 0 {
        None
    } else if 62 > buf.len() || buf[50] & 0xC0u8 != 0xC0 {
        None
    } else if be16(buf[52], buf[53]) != 0x21 {
        None
    } else {
        let rdlen = be16(buf[60], buf[61]);
        if 62 + rdlen > buf.len() || rdlen == 0 {
            None
        } else {
            let count = buf[62] as int;
            let entries = buf.subrange(63, 62 + rdlen);
            if entries.len() < count * 18 {
                None
            } else {
                first_machine_name(entries, count, 0)
            }
        }
    }
}

/// The decoded parts of a DNS message that name resolution looks at:
/// whether it is a query, and for each answer record its PTR target name
/// (or nothing when the record is of another type).
pub struct DnsReply {
    pub query: bool,
    pub ptr_names: Vec<Option<String>>,
}

impl DnsReply {
    pub open spec fn spec_view(&self) -> (bool, Seq<Option<Seq<char>>>) {
        (self.query, self.ptr_names@.map_values(|o: Option<String>| text::opt_view(o)))
    }
}

impl View for DnsReply {
    type V = (bool, Seq<Option<Seq<char>>>);

    open spec fn view(&self) -> Self::V {
        self.spec_view()
    }
}

/// What `dns_parser::Packet::parse` makes of a packet: `None` when it
/// refuses the bytes, otherwise the query flag and the PTR target (as
/// the crate's `Display` writes it) of each answer.
pub uninterp spec fn dns_reply(packet: Seq<u8>) -> Option<(bool, Seq<Option<Seq<char>>>)>;

/// The first name present in `names`.
pub open spec fn first_some(names: Seq<Option<Seq<char>>>) -> Option<Seq<char>>
    decreases names.len(),
{
    if names.len() == 0 {
        None
    } else if names[0] is Some {
        names[0]
    } else {
        first_some(names.drop_first())
    }
}

/// The PTR target named by a decoded reply: none for a query, otherwise
/// that of the first PTR answer.
pub open spec fn reply_ptr_name(r: (bool, Seq<Option<Seq<char>>>)) -> Option<Seq<char>> {
    if r.0 {
        None
    } else {
        first_some(r.1)
    }
}

/// A resolved host name with any trailing dots removed and then one
/// `.local` suffix stripped.
pub open spec fn clean_host(n: Seq<char>) -> Seq<char> {
    let t = text::trim_end_char(n, '.');
    if text::has_suffix(t, ".local"@) {
        t.take(t.len() - ".local"@.len())
    } else {
        t
    }
}

/// Cleaning a name: trailing dots never matter, a `.local` suffix is cut
/// once, and a name with neither is kept as it is.
pub proof fn lemma_clean_host(n: Seq<char>)
    ensures
        clean_host(n.push('.')) == clean_host(n),
        clean_host(n + ".local"@) == n,
        n.len() > 0 && n.last() != '.' && !text::has_suffix(n, ".local"@) ==> clean_host(n) == n,
{
    reveal_strlit(".local");
    assert(n.push('.').drop_last() =~= n);
    let m = n + ".local"@;
    assert(m.last() == 'l');
    assert(m.skip(m.len() - 6) =~= ".local"@);
    assert(m.take(m.len() - 6) =~= n);
}

/// `hostname (ip)`.
pub open spec fn display_text(hostname: Seq<char>, ip: Seq<char>) -> Seq<char> {
    hostname + " ("@ + ip + ")"@
}

/// `Ipv4Addr::is_loopback`: 127.0.0.0/8.
pub open spec fn is_loopback_v4(o: Seq<u8>) -> bool {
    o[0] == 127
}

/// `Ipv4Addr::is_unspecified`: 0.0.0.0.
pub open spec fn is_unspecified_v4(o: Seq<u8>) -> bool {
    o[0] == 0 && o[1] == 0 && o[2] == 0 && o[3] == 0
}

/// `Ipv4Addr::is_private`: 10/8, 172.16/12, 192.168/16.
pub open spec fn is_private_v4(o: Seq<u8>) -> bool {
    o[0] == 10 || (o[0] == 172 && 16 <= o[1] <= 31) || (o[0] == 192 && o[1] == 168)
}

/// `Ipv4Addr::is_link_local`: 169.254/16.
pub open spec fn is_link_local_v4(o: Seq<u8>) -> bool {
    o[0] == 169 && o[1] == 254
}

// ---------------------------------------------------------------------------
// Query packets
// ---------------------------------------------------------------------------

/// Appends the bytes of the (ASCII) characters of `s`.
fn push_ascii(v: &mut Vec<u8>, s: &str)
    ensures
        final(v)@ == old(v)@ + text::ascii_bytes(s@),
{
    let cs = chars_of(s);
    let mut i: usize = 0;
    while i < cs.len()
        invariant
            i <= cs.len(),
            cs@ == s@,
            v@ == old(v)@ + text::ascii_bytes(cs@.take(i as int)),
        decreases cs.len() - i,
    {
        v.push(cs[i] as u8);
        assert(text::ascii_bytes(cs@.take(i + 1)) =~= text::ascii_bytes(cs@.take(i as int)).push(
            cs@[i as int] as u8,
        ));
        i = i + 1;
    }
    assert(cs@.take(cs.len() as int) =~= cs@);
}

/// Appends `s` as a DNS label.
fn push_label(v: &mut Vec<u8>, s: &str)
    requires
        s@.len() < 256,
    ensures
        final(v)@ == old(v)@ + label(s@),
{
    let n = chars_of(s).len();
    v.push(n as u8);
    push_ascii(v, s);
    assert(v@ =~= old(v)@ + label(s@));
}

/// Appends the decimal text of `n` as a DNS label.
fn push_decimal_label(v: &mut Vec<u8>, n: u8)
    ensures
        final(v)@ == old(v)@ + label(text::dec_digits(n as nat)),
{
    let mut s = String::new();
    push_decimal(&mut s, n as u64);
    proof {
        text::lemma_dec_digits_len(n as nat);
        assert(s@ =~= text::dec_digits(n as nat));
    }
    push_label(v, s.as_str());
}

/// Appends a DNS header with the given id and one question.
fn push_query_header(v: &mut Vec<u8>, id: u8)
    ensures
        final(v)@ == old(v)@ + query_header(id),
{
    v.push(0);
    v.push(id);
    v.push(0);
    v.push(0);
    v.push(0);
    v.push(1);
    let mut k: usize = 0;
    while k < 6
        invariant
            k <= 6,
            v@ == old(v)@ + seq![0u8, id, 0, 0, 0, 1] + Seq::new(k as nat, |_i: int| 0u8),
        decreases 6 - k,
    {
        v.push(0);
        assert(Seq::new((k + 1) as nat, |_i: int| 0u8) =~= Seq::new(k as nat, |_i: int| 0u8).push(
            0u8,
        ));
        k = k + 1;
    }
    assert(v@ =~= old(v)@ + query_header(id));
}

/// Encodes the mDNS PTR query for `<reversed octets>.in-addr.arpa`, with the
/// unicast-response bit set so that responders answer our own socket.
pub fn build_ptr_query(octets: [u8; 4]) -> (q: Vec<u8>)
    ensures
        q@ == ptr_query(octets@),
{
    let mut q: Vec<u8> = Vec::new();
    push_query_header(&mut q, 0);
    push_decimal_label(&mut q, octets[3]);
    push_decimal_label(&mut q, octets[2]);
    push_decimal_label(&mut q, octets[1]);
    push_decimal_label(&mut q, octets[0]);
    proof {
        reveal_strlit("in-addr");
        reveal_strlit("arpa");
    }
    push_label(&mut q, "in-addr");
    push_label(&mut q, "arpa");
    q.push(0);
    q.push(0);
    q.push(12);
    q.push(0x80);
    q.push(1);
    assert(q@ =~= ptr_query(octets@));
    q
}

/// Encodes the NetBIOS node status query for the wildcard name.
pub fn build_nbstat_query() -> (q: Vec<u8>)
    ensures
        q@ == nbstat_query(),
{
    let mut q: Vec<u8> = Vec::new();
    push_query_header(&mut q, 1);
    q.push(0x20);
    push_ascii(&mut q, "CK");
    let ghost before = q@;
    let mut k: usize = 0;
    while k < 30
        invariant
            k <= 30,
            q@ == before + Seq::new(k as nat, |_i: int| 65u8),
        decreases 30 - k,
    {
        q.push(65);
        assert(Seq::new((k + 1) as nat, |_i: int| 65u8) =~= Seq::new(k as nat, |_i: int| 65u8).push(
            65u8,
        ));
        k = k + 1;
    }
    q.push(0);
    q.push(0);
    q.push(0x21);
    q.push(0);
    q.push(1);
    assert(q@ =~= nbstat_query());
    q
}

// ---------------------------------------------------------------------------
// Response decoding
// ---------------------------------------------------------------------------

/// The name held by the entry of `buf` starting at `start`.
fn nbstat_entry_name(buf: &[u8], start: usize) -> (r: String)
    requires
        start + 18 <= buf@.len(),
    ensures
        r@ == entry_name(buf@.subrange(start as int, start + 18)),
{
    let ghost e = buf@.subrange(start as int, start + 18);
    let mut cs: Vec<char> = Vec::new();
    let mut k: usize = 0;
    while k < 15
        invariant
            k <= 15,
            start + 18 <= buf@.len(),
            start + 18 <= buf.len(),
            e == buf@.subrange(start as int, start + 18),
            cs@ == e.take(k as int).map_values(|b: u8| nb_name_char(b)),
        decreases 15 - k,
    {
        let b = buf[start + k];
        let c = if 0x21 <= b && b <= 0x7e {
            b as char
        } else {
            ' '
        };
        cs.push(c);
        assert(e.take(k + 1).map_values(|b: u8| nb_name_char(b)) =~= e.take(k as int).map_values(
            |b: u8| nb_name_char(b),
        ).push(nb_name_char(e[k as int])));
        k = k + 1;
    }
    let j = trim_end_ws_bound(&cs, 0, 15);
    assert(cs@.subrange(0, 15) =~= cs@);
    string_of(&cs, 0, j)
}

/// Extracts the machine name from a NetBIOS node status response: the first
/// unique (non-group) name entry with suffix 0x00.
pub fn parse_nbstat_response(buf: &[u8]) -> (r: Option<String>)
    ensures
        text::opt_view(r) == nbstat_name(buf@),
{
    if buf.len() < 12 || buf[2] & 0x80 == 0 {
        return None;
    }
    let ancount = (buf[6] as u16) * 256 + (buf[7] as u16);
    if ancount == 0 {
        return None;
    }
    if buf.len() <= 12 || buf[12] != 0x20 {
        return None;
    }
    if buf.len() <= 45 || buf[45] != 0 {
        return None;
    }
    let pos: usize = 50;
    if pos + 12 > buf.len() || buf[pos] & 0xC0 != 0xC0 {
        return None;
    }
    let rtype = (buf[pos + 2] as u16) * 256 + (buf[pos + 3] as u16);
    if rtype != 0x0021 {
        return None;
    }
    let rdlen = ((buf[pos + 10] as u16) * 256 + (buf[pos + 11] as u16)) as usize;
    let pos: usize = 62;
    if pos + rdlen > buf.len() || rdlen == 0 {
        return None;
    }
    let count = buf[pos] as usize;
    let first = pos + 1;
    let ghost entries = buf@.subrange(63, 62 + rdlen);
    if rdlen - 1 < count * 18 {
        return None;
    }
    assert(nbstat_name(buf@) == first_machine_name(entries, count as int, 0));
    let mut i: usize = 0;
    while i < count
        invariant
            nbstat_name(buf@) == first_machine_name(entries, count as int, 0),
            i <= count,
            count == buf@[62],
            62 + rdlen <= buf@.len(),
            rdlen >= 1,
            first == 63,
            entries == buf@.subrange(63, 62 + rdlen),
            entries.len() >= count * 18,
            first_machine_name(entries, count as int, 0) == first_machine_name(
                entries,
                count as int,
                i as int,
            ),
        decreases count - i,
    {
        let start = first + i * 18;
        let ghost e = entries.subrange(18 * i, 18 * i + 18);
        assert(e =~= buf@.subrange(start as int, start + 18));
        let suffix = buf[start + 15];
        let flags = (buf[start + 16] as u16) * 256 + (buf[start + 17] as u16);
        if suffix == 0x00 && flags & 0x8000 == 0 {
            assert(e[15] == suffix);
            assert(e[16] == buf@[start + 16] && e[17] == buf@[start + 17]);
            assert(is_machine_entry(e));
            let name = nbstat_entry_name(buf, start);
            if name.as_str().unicode_len() > 0 {
                assert(name@ == entry_name(e));
                return Some(name);
            }
        }
        i = i + 1;
    }
    None
}

/// Decodes a DNS message with `dns_parser::Packet::parse`.
///
/// Trusted: the result is `dns_reply` of the bytes; and, as `Header::parse`
/// shows, a packet that parses has at least the 12 header bytes and is a
/// query exactly when the QR bit (top bit of byte 2) is clear. The rest of
/// the crate's parser and its `Display` for names are not restated here.
#[verifier::external_body]
fn decode_dns_reply(buf: &[u8]) -> (r: Option<DnsReply>)
    ensures
        match r {
            Some(d) => dns_reply(buf@) == Some(d@),
            None => dns_reply(buf@) is None,
        },
        r matches Some(d) ==> buf@.len() >= 12 && d.query == (buf@[2] & 0x80u8 == 0),
{
    match dns_parser::Packet::parse(buf) {
        Ok(p) => Some(DnsReply {
            query: p.header.query,
            ptr_names: p.answers.iter().map(|rr| match &rr.data {
                dns_parser::RData::PTR(name) => Some(name.to_string()),
                _ => None,
            }).collect(),
        }),
        Err(_) => None,
    }
}

/// The PTR target named by a decoded reply: none when the message is a
/// query, otherwise the target of its first PTR answer.
pub fn reply_ptr_target(reply: &DnsReply) -> (r: Option<String>)
    ensures
        text::opt_view(r) == reply_ptr_name(reply@),
{
    if reply.query {
        return None;
    }
    let ghost names = reply@.1;
    let mut i: usize = 0;
    assert(names.skip(0) =~= names);
    while i < reply.ptr_names.len()
        invariant
            i <= reply.ptr_names.len(),
            names == reply@.1,
            !reply.query,
            names.len() == reply.ptr_names.len(),
            first_some(names) == first_some(names.skip(i as int)),
        decreases reply.ptr_names.len() - i,
    {
        assert(names.skip(i as int)[0] == text::opt_view(reply.ptr_names@[i as int]));
        match &reply.ptr_names[i] {
            Some(n) => {
                return Some(n.clone());
            },
            None => {},
        }
        assert(names.skip(i as int).drop_first() =~= names.skip(i + 1));
        i = i + 1;
    }
    None
}

/// Extracts the PTR target name from an mDNS response packet; queries and
/// packets that do not parse give nothing.
pub fn parse_ptr_response(buf: &[u8]) -> (r: Option<String>)
    ensures
        text::opt_view(r) == match dns_reply(buf@) {
            Some(d) => reply_ptr_name(d),
            None => None,
        },
        buf@.len() >= 3 && buf@[2] & 0x80u8 == 0 ==> r is None,
{
    match decode_dns_reply(buf) {
        Some(d) => reply_ptr_target(&d),
        None => None,
    }
}

/// Our own PTR query is a query (its QR bit is clear), so it is never taken
/// for an answer: `parse_ptr_response` gives nothing for it.
pub proof fn lemma_ptr_query_is_query(octets: Seq<u8>)
    requires
        octets.len() == 4,
    ensures
        ptr_query(octets).len() >= 12,
        ptr_query(octets)[2] & 0x80u8 == 0,
{
    let q = ptr_query(octets);
    assert(q[2] == 0u8);
    assert(0u8 & 0x80u8 == 0) by (bit_vector);
}

/// The NetBIOS query is not a response (its response bit is clear), so
/// `parse_nbstat_response` finds no name in it.
pub proof fn lemma_nbstat_query_has_no_name()
    ensures
        nbstat_name(nbstat_query()) is None,
{
    let q = nbstat_query();
    assert(q[2] == 0u8);
    assert(0u8 & 0x80u8 == 0) by (bit_vector);
}

/// NetBIOS first-level encoding: each byte becomes two, 'A' plus its high
/// nibble, then 'A' plus its low nibble.
pub open spec fn first_level_encoding(bytes: Seq<u8>) -> Seq<u8> {
    Seq::new(
        2 * bytes.len(),
        |i: int|
            if i % 2 == 0 {
                (0x41 + bytes[i / 2] / 16) as u8
            } else {
                (0x41 + bytes[i / 2] % 16) as u8
            },
    )
}

/// The node status query asks for the wildcard name: after the 12-byte
/// header (id 1, one question) comes a 32-byte label holding the first-level
/// encoding of `*` followed by fifteen zero bytes, the root label, then
/// type NBSTAT (0x21) and class IN.
pub proof fn lemma_nbstat_query_asks_wildcard()
    ensures
        nbstat_query().len() == 50,
        nbstat_query().take(12) == seq![0u8, 1, 0, 0, 0, 1, 0, 0, 0, 0, 0, 0],
        nbstat_query()[12] == 32,
        nbstat_query().subrange(13, 45) == first_level_encoding(
            seq![0x2au8] + Seq::new(15, |_i: int| 0u8),
        ),
        nbstat_query().skip(45) == seq![0u8, 0, 0x21, 0, 1],
{
    reveal_strlit("CK");
    let q = nbstat_query();
    let name = seq![0x2au8] + Seq::new(15, |_i: int| 0u8);
    let enc = first_level_encoding(name);
    assert(("CK"@[0] as u8) == 0x43u8);
    assert(("CK"@[1] as u8) == 0x4bu8);
    assert forall|i: int| 0 <= i < 32 implies q.subrange(13, 45)[i] == enc[i] by {
        if i >= 2 {
            assert(name[i / 2] == 0u8);
        }
    }
    assert(q.subrange(13, 45) =~= enc);
    assert(q.take(12) =~= seq![0u8, 1, 0, 0, 0, 1, 0, 0, 0, 0, 0, 0]);
    assert(q.skip(45) =~= seq![0u8, 0, 0x21, 0, 1]);
}

/// The PTR query asks one question (id 0), ends its name with the root
/// label, and asks for type PTR (12) in class IN with the unicast-response
/// bit (0x8000 of the class) set.
pub proof fn lemma_ptr_query_asks_unicast(octets: Seq<u8>)
    requires
        octets.len() == 4,
    ensures
        ptr_query(octets).take(12) == seq![0u8, 0, 0, 0, 0, 1, 0, 0, 0, 0, 0, 0],
        ptr_query(octets).skip(ptr_query(octets).len() - 5) == seq![0u8, 0, 12, 0x80, 1],
{
    let q = ptr_query(octets);
    assert(q.take(12) =~= seq![0u8, 0, 0, 0, 0, 1, 0, 0, 0, 0, 0, 0]);
    assert(q.skip(q.len() - 5) =~= seq![0u8, 0, 12, 0x80, 1]);
}

// ---------------------------------------------------------------------------
// Names
// ---------------------------------------------------------------------------

/// A resolved name with trailing dots and a `.local` suffix removed.
pub fn clean_hostname(name: &str) -> (r: String)
    ensures
        r@ == clean_host(name@),
{
    let v = chars_of(name);
    let j = trim_end_char_bound(&v, '.');
    let suffix = chars_of(".local");
    assert(v@.subrange(0, j as int) =~= v@.take(j as int));
    if range_ends_with(&v, 0, j, &suffix) {
        let r = string_of(&v, 0, j - suffix.len());
        assert(r@ =~= clean_host(name@));
        r
    } else {
        string_of(&v, 0, j)
    }
}

/// The name shown for a client once the lookups are done: the cleaned name
/// found, or the IP text when nothing (or nothing but dots and `.local`)
/// was found.
pub fn hostname_or_ip(found: Option<&str>, ip: &str) -> (r: String)
    ensures
        r@ == match found {
            Some(n) => if clean_host(n@).len() > 0 {
                clean_host(n@)
            } else {
                ip@
            },
            None => ip@,
        },
        ip@.len() > 0 ==> r@.len() > 0,
{
    match found {
        Some(n) => {
            let c = clean_hostname(n);
            if chars_of(c.as_str()).len() > 0 {
                c
            } else {
                string_from(ip)
            }
        },
        None => string_from(ip),
    }
}

/// The hostname of the server machine: the configured override when there
/// is one, otherwise the cleaned system hostname; an empty result counts as
/// none (the caller then falls back to a reverse lookup).
pub fn choose_local_hostname(configured: Option<&str>, system: Option<&str>) -> (r: Option<String>)
    ensures
        text::opt_view(r) == match configured {
            Some(c) => if c@.len() > 0 {
                Some(c@)
            } else {
                None
            },
            None => match system {
                Some(s) => if clean_host(s@).len() > 0 {
                    Some(clean_host(s@))
                } else {
                    None
                },
                None => None,
            },
        },
{
    match configured {
        Some(c) => {
            if chars_of(c).len() > 0 {
                Some(string_from(c))
            } else {
                None
            }
        },
        None => match system {
            Some(s) => {
                let h = clean_hostname(s);
                if chars_of(h.as_str()).len() > 0 {
                    Some(h)
                } else {
                    None
                }
            },
            None => None,
        },
    }
}

/// The label shown for a client: `hostname (ip)`.
pub fn display_name(hostname: &str, ip: &str) -> (r: String)
    ensures
        r@ == display_text(hostname@, ip@),
{
    let mut r = string_from(hostname);
    push_str(&mut r, " (");
    push_str(&mut r, ip);
    push_str(&mut r, ")");
    assert(r@ =~= display_text(hostname@, ip@));
    r
}

/// Whether an mDNS reverse lookup is worth sending: not for loopback or
/// unspecified addresses, which never have useful mDNS names.
pub fn mdns_worth_asking(octets: [u8; 4]) -> (b: bool)
    ensures
        b == !(is_loopback_v4(octets@) || is_unspecified_v4(octets@)),
{
    let loopback = octets[0] == 127;
    let unspecified = octets[0] == 0 && octets[1] == 0 && octets[2] == 0 && octets[3] == 0;
    !(loopback || unspecified)
}

/// Whether a NetBIOS name query is worth sending: only LAN addresses
/// (private or link-local) answer it.
pub fn netbios_worth_asking(octets: [u8; 4]) -> (b: bool)
    ensures
        b == (is_private_v4(octets@) || is_link_local_v4(octets@)),
{
    let a = octets[0];
    let b = octets[1];
    let private = a == 10 || (a == 172 && 16 <= b && b <= 31) || (a == 192 && b == 168);
    let link_local = a == 169 && b == 254;
    private || link_local
}

// ---------------------------------------------------------------------------
// Settings
// ---------------------------------------------------------------------------

/// A configured address with surrounding whitespace removed; a blank value
/// counts as unset.
pub fn address_setting(value: &str) -> (r: Option<String>)
    ensures
        text::opt_view(r) == if text::trim_ws(value@).len() > 0 {
            Some(text::trim_ws(value@))
        } else {
            None
        },
{
    let t = trim(value);
    if chars_of(t.as_str()).len() > 0 {
        Some(t)
    } else {
        None
    }
}

/// A configured hostname with surrounding whitespace and trailing dots
/// removed; a value with nothing else counts as unset.
pub fn hostname_setting(value: &str) -> (r: Option<String>)
    ensures
        text::opt_view(r) == {
            let h = text::trim_end_char(text::trim_ws(value@), '.');
            if h.len() > 0 {
                Some(h)
            } else {
                None
            }
        },
{
    let t = trim(value);
    let v = chars_of(t.as_str());
    let j = trim_end_char_bound(&v, '.');
    if j > 0 {
        assert(v@.subrange(0, j as int) =~= v@.take(j as int));
        Some(string_of(&v, 0, j))
    } else {
        None
    }
}

} // verus!
