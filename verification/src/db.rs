//! The message store's own rules: how a row becomes a message, how one page
//! of the newest-first query result is turned into a page for display, and
//! who may recall a message. The SQL statements themselves run in the
//! server program against its SQLite database.
use vstd::prelude::*;
use crate::text;
use crate::models::{Message, MessageKind};
use crate::models;
use crate::text::{opt_string, same_text, string_from};

verus! {

/// The number of rows kept for a page: `limit` when it is smaller than the
/// number of rows fetched, otherwise all of them (a negative limit keeps all).
pub open spec fn page_len(n: nat, limit: int) -> nat {
    if 0 <= limit < n {
        limit as nat
    } else {
        n
    }
}

/// The page shown for the rows of a newest-first query: the first
/// `page_len` of them, in the opposite (oldest-first) order.
pub open spec fn page_of<T>(rows: Seq<T>, limit: int) -> Seq<T> {
    rows.take(page_len(rows.len(), limit) as int).reverse()
}

/// The kind read back from a stored name; an unknown name reads as text.
pub open spec fn kind_or_text(s: Seq<char>) -> MessageKind {
    match models::kind_from_text(s) {
        Some(k) => k,
        None => MessageKind::Text,
    }
}

/// The ids of a sequence of messages.
pub open spec fn ids_of(ms: Seq<Message>) -> Seq<i64> {
    ms.map_values(|m: Message| m.id)
}

/// Turns the rows of a newest-first query that asked for `limit + 1` rows
/// into the page to show and whether older messages remain: up to `limit`
/// messages in ascending order (oldest of the page first), and `has_more`
/// exactly when more than `limit` rows came back.
pub fn page_of_rows(rows: Vec<Message>, limit: i64) -> (r: (Vec<Message>, bool))
    ensures
        r.0@ == page_of(rows@, limit as int),
        r.1 == (rows@.len() > limit),
        limit >= 0 ==> r.0@.len() <= limit,
        limit >= 0 ==> r.0@.len() == if rows@.len() <= limit {
            rows@.len() as int
        } else {
            limit as int
        },
        limit < 0 ==> r.0@.len() == rows@.len(),
        forall|i: int| 0 <= i < r.0@.len() ==> #[trigger] r.0@[i] == rows@[r.0@.len() - 1 - i],
        (forall|i: int, j: int| 0 <= i < j < rows@.len() ==> rows@[i].id > rows@[j].id) ==> (forall|
            i: int,
            j: int,
        | 0 <= i < j < r.0@.len() ==> r.0@[i].id < r.0@[j].id),
{
    let n = rows.len();
    let has_more = if limit < 0 {
        true
    } else {
        (n as u64) > (limit as u64)
    };
    let keep: usize = if limit < 0 || (limit as u64) >= (n as u64) {
        n
    } else {
        limit as usize
    };
    assert(keep == page_len(rows@.len(), limit as int));
    let ghost kept = rows@.take(keep as int);
    let mut rest = rows;
    rest.truncate(keep);
    assert(rest@ =~= kept);
    let mut page: Vec<Message> = Vec::new();
    while rest.len() > 0
        invariant
            kept.len() == keep,
            rest@.len() <= keep,
            rest@ == kept.take(rest@.len() as int),
            page@ == kept.skip(rest@.len() as int).reverse(),
        decreases rest.len(),
    {
        let ghost before = rest@.len();
        match rest.pop() {
            Some(m) => {
                page.push(m);
                assert(kept.skip(before - 1).reverse() =~= kept.skip(before as int).reverse().push(
                    kept[before - 1],
                ));
                assert(rest@ =~= kept.take(rest@.len() as int));
            },
            None => {},
        }
    }
    assert(kept.skip(0) =~= kept);
    proof {
        let p = page@;
        assert forall|i: int, j: int| 0 <= i < j < p.len() implies p[i] == rows@[keep - 1 - i] && p[j]
            == rows@[keep - 1 - j] by {}
    }
    (page, has_more)
}

/// A message read back from a stored row: an unknown kind name reads as
/// text and any non-zero `recalled` flag as recalled.
pub fn message_from_row(
    id: i64,
    hostname: String,
    ip: String,
    kind: &str,
    content: Option<String>,
    filename: Option<String>,
    orig_name: Option<String>,
    created_at: i64,
    recalled: i64,
) -> (m: Message)
    ensures
        m.id == id,
        m.hostname == hostname,
        m.ip == ip,
        m.kind == kind_or_text(kind@),
        m.content == content,
        m.filename == filename,
        m.orig_name == orig_name,
        m.created_at == created_at,
        m.recalled == (recalled != 0),
{
    let k = match MessageKind::from_str(kind) {
        Some(k) => k,
        None => MessageKind::Text,
    };
    Message {
        id,
        hostname,
        ip,
        kind: k,
        content,
        filename,
        orig_name,
        created_at,
        recalled: recalled != 0,
    }
}

/// The message just stored under row id `id`: not recalled.
pub fn new_message(
    id: i64,
    hostname: &str,
    ip: &str,
    kind: MessageKind,
    content: Option<&str>,
    filename: Option<&str>,
    orig_name: Option<&str>,
    created_at: i64,
) -> (m: Message)
    ensures
        m.id == id,
        m.hostname@ == hostname@,
        m.ip@ == ip@,
        m.kind == kind,
        text::opt_view(m.content) == text::opt_str_view(content),
        text::opt_view(m.filename) == text::opt_str_view(filename),
        text::opt_view(m.orig_name) == text::opt_str_view(orig_name),
        m.created_at == created_at,
        !m.recalled,
{
    Message {
        id,
        hostname: string_from(hostname),
        ip: string_from(ip),
        kind,
        content: opt_string(content),
        filename: opt_string(filename),
        orig_name: opt_string(orig_name),
        created_at,
        recalled: false,
    }
}

/// What a recall request comes to.
#[derive(Clone, Copy, Debug, PartialEq, Eq, Structural)]
pub enum RecallDecision {
    /// No message has that id.
    NotFound,
    /// The requester sent the message: mark it recalled.
    Allowed,
    /// Someone else sent the message.
    Denied,
}

/// The decision for a recall request, from the owner of the message
/// (`None` when there is no such message).
pub open spec fn recall_decision(owner: Option<(Seq<char>, Seq<char>)>, hostname: Seq<char>, ip: Seq<char>) -> RecallDecision {
    match owner {
        None => RecallDecision::NotFound,
        Some((h, p)) => if h == hostname && p == ip {
            RecallDecision::Allowed
        } else {
            RecallDecision::Denied
        },
    }
}

/// Only the sender may recall: for any owner and requester, a recall is
/// allowed exactly when the message exists and both its hostname and its IP
/// are the requester's; someone with another hostname (even from the same
/// IP) or another IP is denied; an unknown message is not found.
pub proof fn lemma_recall_only_by_sender(
    owner: Option<(Seq<char>, Seq<char>)>,
    hostname: Seq<char>,
    ip: Seq<char>,
)
    ensures
        recall_decision(owner, hostname, ip) == RecallDecision::Allowed <==> (owner is Some
            && owner.unwrap().0 == hostname && owner.unwrap().1 == ip),
        recall_decision(owner, hostname, ip) == RecallDecision::NotFound <==> owner is None,
        owner is Some && owner.unwrap().0 != hostname ==> recall_decision(owner, hostname, ip)
            == RecallDecision::Denied,
        owner is Some && owner.unwrap().1 != ip ==> recall_decision(owner, hostname, ip)
            == RecallDecision::Denied,
{
}

/// Pages keep every row unless more than `limit` came back: for a
/// non-negative limit the page holds the first min(n, limit) of the n rows,
/// last fetched first; with at most `limit` rows, every row is on the page.
pub proof fn lemma_page_keeps_rows<T>(rows: Seq<T>, limit: int)
    requires
        limit >= 0,
    ensures
        page_of(rows, limit).len() == if rows.len() <= limit {
            rows.len() as int
        } else {
            limit
        },
        forall|i: int|
            0 <= i < page_of(rows, limit).len() ==> #[trigger] page_of(rows, limit)[i] == rows[page_of(
                rows,
                limit,
            ).len() - 1 - i],
        rows.len() <= limit ==> forall|i: int|
            0 <= i < rows.len() ==> page_of(rows, limit).contains(#[trigger] rows[i]),
{
    let p = page_of(rows, limit);
    if rows.len() <= limit {
        assert forall|i: int| 0 <= i < rows.len() implies p.contains(#[trigger] rows[i]) by {
            assert(p[rows.len() - 1 - i] == rows[i]);
        }
    }
}

/// Only the original sender — same hostname and same IP — may recall a
/// message.
pub fn decide_recall(owner: Option<(&str, &str)>, hostname: &str, ip: &str) -> (d: RecallDecision)
    ensures
        d == recall_decision(
            match owner {
                Some((h, p)) => Some((h@, p@)),
                None => None,
            },
            hostname@,
            ip@,
        ),
        d == RecallDecision::NotFound <==> owner is None,
        d == RecallDecision::Allowed <==> (owner is Some && owner.unwrap().0@ == hostname@
            && owner.unwrap().1@ == ip@),
{
    match owner {
        None => RecallDecision::NotFound,
        Some((h, p)) => {
            if same_text(h, hostname) && same_text(p, ip) {
                RecallDecision::Allowed
            } else {
                RecallDecision::Denied
            }
        },
    }
}

} // verus!
