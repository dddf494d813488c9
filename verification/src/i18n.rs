//! User-interface language: the two string tables, and the reading of an
//! `Accept-Language` header into its language ranges.
//!
//! Choosing the preferred range compares q-values as `f32`; that comparison
//! is done by the server program over the ranges listed here.
use vstd::prelude::*;
use crate::text;
use crate::text::{chars_of, range_starts_with, string_of, to_ascii_lower, trim_ws_bounds};

verus! {

/// The two supported UI languages.
#[derive(Clone, Copy, Debug, PartialEq, Eq, Structural)]
pub enum Lang {
    Zh,
    En,
}

/// The UI strings of one language.
#[derive(Clone, Copy)]
pub struct Strings {
    pub send: &'static str,
    pub input_placeholder: &'static str,
    pub copy: &'static str,
    pub download: &'static str,
    pub recall: &'static str,
    pub recalled: &'static str,
    pub no_more: &'static str,
    pub drop_hint: &'static str,
    pub send_failed: &'static str,
    pub upload_failed: &'static str,
    pub file_too_large: &'static str,
    pub uploading: &'static str,
    pub recall_failed: &'static str,
    pub copy_done: &'static str,
    pub empty_message: &'static str,
}

/// The Chinese table.
pub open spec fn zh_table() -> Strings {
    Strings {
        send: "发送",
        input_placeholder: "输入消息，Enter 发送，Shift+Enter 换行",
        copy: "复制",
        download: "下载",
        recall: "撤回",
        recalled: "撤回了一条消息",
        no_more: "没有更多消息了",
        drop_hint: "松开鼠标发送文件",
        send_failed: "发送失败，请重试",
        upload_failed: "上传失败，请重试",
        file_too_large: "文件超过大小限制（最大 1GB）",
        uploading: "正在上传…",
        recall_failed: "撤回失败",
        copy_done: "已复制",
        empty_message: "不能发送空消息",
    }
}

/// The English table.
pub open spec fn en_table() -> Strings {
    Strings {
        send: "Send",
        input_placeholder: "Type a message. Enter to send, Shift+Enter for newline",
        copy: "Copy",
        download: "Download",
        recall: "Recall",
        recalled: "recalled a message",
        no_more: "No more messages",
        drop_hint: "Drop to send file",
        send_failed: "Failed to send, please retry",
        upload_failed: "Failed to upload, please retry",
        file_too_large: "File exceeds the size limit (max 1 GB)",
        uploading: "Uploading…",
        recall_failed: "Failed to recall",
        copy_done: "Copied",
        empty_message: "Cannot send an empty message",
    }
}

/// The table of a language.
pub open spec fn table_of(lang: Lang) -> Strings {
    match lang {
        Lang::Zh => zh_table(),
        Lang::En => en_table(),
    }
}

/// The code of a language as used in the page.
pub open spec fn code_of(lang: Lang) -> Seq<char> {
    match lang {
        Lang::Zh => "zh"@,
        Lang::En => "en"@,
    }
}

/// The UI strings of a language.
pub fn strings(lang: Lang) -> (s: Strings)
    ensures
        s == table_of(lang),
{
    match lang {
        Lang::Zh => Strings {
            send: "发送",
            input_placeholder: "输入消息，Enter 发送，Shift+Enter 换行",
            copy: "复制",
            download: "下载",
            recall: "撤回",
            recalled: "撤回了一条消息",
            no_more: "没有更多消息了",
            drop_hint: "松开鼠标发送文件",
            send_failed: "发送失败，请重试",
            upload_failed: "上传失败，请重试",
            file_too_large: "文件超过大小限制（最大 1GB）",
            uploading: "正在上传…",
            recall_failed: "撤回失败",
            copy_done: "已复制",
            empty_message: "不能发送空消息",
        },
        Lang::En => Strings {
            send: "Send",
            input_placeholder: "Type a message. Enter to send, Shift+Enter for newline",
            copy: "Copy",
            download: "Download",
            recall: "Recall",
            recalled: "recalled a message",
            no_more: "No more messages",
            drop_hint: "Drop to send file",
            send_failed: "Failed to send, please retry",
            upload_failed: "Failed to upload, please retry",
            file_too_large: "File exceeds the size limit (max 1 GB)",
            uploading: "Uploading…",
            recall_failed: "Failed to recall",
            copy_done: "Copied",
            empty_message: "Cannot send an empty message",
        },
    }
}

/// The code of a language: "zh" or "en".
pub fn code(lang: Lang) -> (r: &'static str)
    ensures
        r@ == code_of(lang),
{
    match lang {
        Lang::Zh => "zh",
        Lang::En => "en",
    }
}

/// The entries of a table, in field order.
pub open spec fn entries(t: Strings) -> Seq<Seq<char>> {
    seq![
        t.send@, t.input_placeholder@, t.copy@, t.download@, t.recall@,
        t.recalled@, t.no_more@, t.drop_hint@, t.send_failed@, t.upload_failed@,
        t.file_too_large@, t.uploading@, t.recall_failed@, t.copy_done@, t.empty_message@,
    ]
}

/// The English labels are those of the page: "Send", "Copy", "Download",
/// "Recall" and the rest, each a text of its own (no two entries of the table
/// are the same text, so the download button never reads like the copy button).
pub proof fn lemma_english_table()
    ensures
        table_of(Lang::En).send@ == "Send"@,
        table_of(Lang::En).input_placeholder@ == "Type a message. Enter to send, Shift+Enter for newline"@,
        table_of(Lang::En).copy@ == "Copy"@,
        table_of(Lang::En).download@ == "Download"@,
        table_of(Lang::En).recall@ == "Recall"@,
        table_of(Lang::En).recalled@ == "recalled a message"@,
        table_of(Lang::En).no_more@ == "No more messages"@,
        table_of(Lang::En).drop_hint@ == "Drop to send file"@,
        table_of(Lang::En).send_failed@ == "Failed to send, please retry"@,
        table_of(Lang::En).upload_failed@ == "Failed to upload, please retry"@,
        table_of(Lang::En).file_too_large@ == "File exceeds the size limit (max 1 GB)"@,
        table_of(Lang::En).uploading@ == "Uploading…"@,
        table_of(Lang::En).recall_failed@ == "Failed to recall"@,
        table_of(Lang::En).copy_done@ == "Copied"@,
        table_of(Lang::En).empty_message@ == "Cannot send an empty message"@,
        entries(table_of(Lang::En)).len() == 15,
        forall|i: int, j: int|
            0 <= i < j < 15 ==> entries(table_of(Lang::En))[i] != entries(table_of(Lang::En))[j],
{
    reveal_strlit("Send");
    reveal_strlit("Type a message. Enter to send, Shift+Enter for newline");
    reveal_strlit("Copy");
    reveal_strlit("Download");
    reveal_strlit("Recall");
    reveal_strlit("recalled a message");
    reveal_strlit("No more messages");
    reveal_strlit("Drop to send file");
    reveal_strlit("Failed to send, please retry");
    reveal_strlit("Failed to upload, please retry");
    reveal_strlit("File exceeds the size limit (max 1 GB)");
    reveal_strlit("Uploading…");
    reveal_strlit("Failed to recall");
    reveal_strlit("Copied");
    reveal_strlit("Cannot send an empty message");
    let e = entries(table_of(Lang::En));
    assert(e[0] == "Send"@ && e[0].len() == 4 && e[0][0] == 'S');
    assert(e[1] == "Type a message. Enter to send, Shift+Enter for newline"@ && e[1].len() == 54 && e[1][0] == 'T');
    assert(e[2] == "Copy"@ && e[2].len() == 4 && e[2][0] == 'C');
    assert(e[3] == "Download"@ && e[3].len() == 8 && e[3][0] == 'D');
    assert(e[4] == "Recall"@ && e[4].len() == 6 && e[4][0] == 'R');
    assert(e[5] == "recalled a message"@ && e[5].len() == 18 && e[5][0] == 'r');
    assert(e[6] == "No more messages"@ && e[6].len() == 16 && e[6][0] == 'N');
    assert(e[7] == "Drop to send file"@ && e[7].len() == 17 && e[7][0] == 'D');
    assert(e[8] == "Failed to send, please retry"@ && e[8].len() == 28 && e[8][0] == 'F');
    assert(e[9] == "Failed to upload, please retry"@ && e[9].len() == 30 && e[9][0] == 'F');
    assert(e[10] == "File exceeds the size limit (max 1 GB)"@ && e[10].len() == 38 && e[10][0] == 'F');
    assert(e[11] == "Uploading…"@ && e[11].len() == 10 && e[11][0] == 'U');
    assert(e[12] == "Failed to recall"@ && e[12].len() == 16 && e[12][0] == 'F');
    assert(e[13] == "Copied"@ && e[13].len() == 6 && e[13][0] == 'C');
    assert(e[14] == "Cannot send an empty message"@ && e[14].len() == 28 && e[14][0] == 'C');
    assert forall|i: int, j: int| 0 <= i < j < 15 implies e[i] != e[j] by {
        lemma_index_cases(i);
        lemma_index_cases(j);
        assert(e[i].len() != e[j].len() || e[i][0] != e[j][0]);
    }
}

/// The Chinese labels are those of the page: "发送", "复制", "下载", "撤回"
/// and the rest, each a text of its own, and each unlike the English entry
/// in the same place.
pub proof fn lemma_chinese_table()
    ensures
        table_of(Lang::Zh).send@ == "发送"@,
        table_of(Lang::Zh).input_placeholder@ == "输入消息，Enter 发送，Shift+Enter 换行"@,
        table_of(Lang::Zh).copy@ == "复制"@,
        table_of(Lang::Zh).download@ == "下载"@,
        table_of(Lang::Zh).recall@ == "撤回"@,
        table_of(Lang::Zh).recalled@ == "撤回了一条消息"@,
        table_of(Lang::Zh).no_more@ == "没有更多消息了"@,
        table_of(Lang::Zh).drop_hint@ == "松开鼠标发送文件"@,
        table_of(Lang::Zh).send_failed@ == "发送失败，请重试"@,
        table_of(Lang::Zh).upload_failed@ == "上传失败，请重试"@,
        table_of(Lang::Zh).file_too_large@ == "文件超过大小限制（最大 1GB）"@,
        table_of(Lang::Zh).uploading@ == "正在上传…"@,
        table_of(Lang::Zh).recall_failed@ == "撤回失败"@,
        table_of(Lang::Zh).copy_done@ == "已复制"@,
        table_of(Lang::Zh).empty_message@ == "不能发送空消息"@,
        entries(table_of(Lang::Zh)).len() == 15,
        forall|i: int, j: int|
            0 <= i < j < 15 ==> entries(table_of(Lang::Zh))[i] != entries(table_of(Lang::Zh))[j],
        forall|i: int| 0 <= i < 15 ==> entries(table_of(Lang::Zh))[i] != entries(table_of(Lang::En))[i],
{
    reveal_strlit("发送");
    reveal_strlit("输入消息，Enter 发送，Shift+Enter 换行");
    reveal_strlit("复制");
    reveal_strlit("下载");
    reveal_strlit("撤回");
    reveal_strlit("撤回了一条消息");
    reveal_strlit("没有更多消息了");
    reveal_strlit("松开鼠标发送文件");
    reveal_strlit("发送失败，请重试");
    reveal_strlit("上传失败，请重试");
    reveal_strlit("文件超过大小限制（最大 1GB）");
    reveal_strlit("正在上传…");
    reveal_strlit("撤回失败");
    reveal_strlit("已复制");
    reveal_strlit("不能发送空消息");
    lemma_english_table();
    reveal_strlit("Send");
    reveal_strlit("Type a message. Enter to send, Shift+Enter for newline");
    reveal_strlit("Copy");
    reveal_strlit("Download");
    reveal_strlit("Recall");
    reveal_strlit("recalled a message");
    reveal_strlit("No more messages");
    reveal_strlit("Drop to send file");
    reveal_strlit("Failed to send, please retry");
    reveal_strlit("Failed to upload, please retry");
    reveal_strlit("File exceeds the size limit (max 1 GB)");
    reveal_strlit("Uploading…");
    reveal_strlit("Failed to recall");
    reveal_strlit("Copied");
    reveal_strlit("Cannot send an empty message");
    let z = entries(table_of(Lang::Zh));
    let e = entries(table_of(Lang::En));
    assert(z[0] == "发送"@ && z[0].len() == 2 && z[0][0] == '发');
    assert(z[1] == "输入消息，Enter 发送，Shift+Enter 换行"@ && z[1].len() == 28 && z[1][0] == '输');
    assert(z[2] == "复制"@ && z[2].len() == 2 && z[2][0] == '复');
    assert(z[3] == "下载"@ && z[3].len() == 2 && z[3][0] == '下');
    assert(z[4] == "撤回"@ && z[4].len() == 2 && z[4][0] == '撤');
    assert(z[5] == "撤回了一条消息"@ && z[5].len() == 7 && z[5][0] == '撤');
    assert(z[6] == "没有更多消息了"@ && z[6].len() == 7 && z[6][0] == '没');
    assert(z[7] == "松开鼠标发送文件"@ && z[7].len() == 8 && z[7][0] == '松');
    assert(z[8] == "发送失败，请重试"@ && z[8].len() == 8 && z[8][0] == '发');
    assert(z[9] == "上传失败，请重试"@ && z[9].len() == 8 && z[9][0] == '上');
    assert(z[10] == "文件超过大小限制（最大 1GB）"@ && z[10].len() == 16 && z[10][0] == '文');
    assert(z[11] == "正在上传…"@ && z[11].len() == 5 && z[11][0] == '正');
    assert(z[12] == "撤回失败"@ && z[12].len() == 4 && z[12][0] == '撤');
    assert(z[13] == "已复制"@ && z[13].len() == 3 && z[13][0] == '已');
    assert(z[14] == "不能发送空消息"@ && z[14].len() == 7 && z[14][0] == '不');
    assert(e[0] == "Send"@ && e[0].len() == 4 && e[0][0] == 'S');
    assert(e[1] == "Type a message. Enter to send, Shift+Enter for newline"@ && e[1].len() == 54 && e[1][0] == 'T');
    assert(e[2] == "Copy"@ && e[2].len() == 4 && e[2][0] == 'C');
    assert(e[3] == "Download"@ && e[3].len() == 8 && e[3][0] == 'D');
    assert(e[4] == "Recall"@ && e[4].len() == 6 && e[4][0] == 'R');
    assert(e[5] == "recalled a message"@ && e[5].len() == 18 && e[5][0] == 'r');
    assert(e[6] == "No more messages"@ && e[6].len() == 16 && e[6][0] == 'N');
    assert(e[7] == "Drop to send file"@ && e[7].len() == 17 && e[7][0] == 'D');
    assert(e[8] == "Failed to send, please retry"@ && e[8].len() == 28 && e[8][0] == 'F');
    assert(e[9] == "Failed to upload, please retry"@ && e[9].len() == 30 && e[9][0] == 'F');
    assert(e[10] == "File exceeds the size limit (max 1 GB)"@ && e[10].len() == 38 && e[10][0] == 'F');
    assert(e[11] == "Uploading…"@ && e[11].len() == 10 && e[11][0] == 'U');
    assert(e[12] == "Failed to recall"@ && e[12].len() == 16 && e[12][0] == 'F');
    assert(e[13] == "Copied"@ && e[13].len() == 6 && e[13][0] == 'C');
    assert(e[14] == "Cannot send an empty message"@ && e[14].len() == 28 && e[14][0] == 'C');
    assert forall|i: int, j: int| 0 <= i < j < 15 implies z[i] != z[j] by {
        lemma_index_cases(i);
        lemma_index_cases(j);
        assert(z[i].len() != z[j].len() || z[i][0] != z[j][0]);
    }
    assert forall|i: int| 0 <= i < 15 implies z[i] != e[i] by {
        lemma_index_cases(i);
        assert(z[i][0] != e[i][0]);
    }
}

/// An index below 15 is one of the fifteen entries' places.
proof fn lemma_index_cases(i: int)
    requires
        0 <= i < 15,
    ensures
        i == 0 || i == 1 || i == 2 || i == 3 || i == 4 || i == 5 || i == 6 || i == 7
            || i == 8 || i == 9 || i == 10 || i == 11 || i == 12 || i == 13 || i == 14,
{
}

// ---------------------------------------------------------------------------
// Accept-Language
// ---------------------------------------------------------------------------

/// `s` split at every `c` (`str::split`): the pieces between separators,
/// empty ones included; there is always at least one piece.
pub open spec fn split_on(s: Seq<char>, c: char) -> Seq<Seq<char>>
    decreases s.len(),
{
    if s.len() == 0 {
        seq![Seq::<char>::empty()]
    } else {
        let rest = split_on(s.drop_last(), c);
        if s.last() == c {
            rest.push(Seq::<char>::empty())
        } else {
            rest.update(rest.len() - 1, rest.last().push(s.last()))
        }
    }
}

/// The index of the first `c` in `s`, or `s.len()` when there is none.
pub open spec fn find_char(s: Seq<char>, c: char) -> int
    decreases s.len(),
{
    if s.len() == 0 {
        0
    } else if s[0] == c {
        0
    } else {
        1 + find_char(s.drop_first(), c)
    }
}

/// The value of a `q=` parameter, trimmed; `None` for other parameters.
pub open spec fn q_param(p: Seq<char>) -> Option<Seq<char>> {
    let t = text::trim_ws(p);
    if text::has_prefix(t, "q="@) {
        Some(text::trim_ws(t.skip("q="@.len() as int)))
    } else {
        None
    }
}

/// The value of the last `q=` parameter among `params`.
pub open spec fn last_q(params: Seq<Seq<char>>) -> Option<Seq<char>>
    decreases params.len(),
{
    if params.len() == 0 {
        None
    } else {
        match q_param(params.last()) {
            Some(v) => Some(v),
            None => last_q(params.drop_last()),
        }
    }
}

/// One trimmed, non-empty element of the header: its tag (before the first
/// `;`, trimmed) and the text of its last `q=` parameter.
pub open spec fn range_of_part(part: Seq<char>) -> (Seq<char>, Option<Seq<char>>) {
    let i = find_char(part, ';');
    if i < part.len() {
        (text::trim_ws(part.take(i)), last_q(split_on(part.skip(i + 1), ';')))
    } else {
        (part, None)
    }
}

/// The language ranges of the comma-separated `parts`: empty elements and
/// elements with an empty tag are skipped.
pub open spec fn ranges_of(parts: Seq<Seq<char>>) -> Seq<(Seq<char>, Option<Seq<char>>)>
    decreases parts.len(),
{
    if parts.len() == 0 {
        seq![]
    } else {
        let prev = ranges_of(parts.drop_last());
        let p = text::trim_ws(parts.last());
        if p.len() == 0 {
            prev
        } else if range_of_part(p).0.len() == 0 {
            prev
        } else {
            prev.push(range_of_part(p))
        }
    }
}

/// The language ranges of an `Accept-Language` header, in header order.
pub open spec fn header_ranges(header: Seq<char>) -> Seq<(Seq<char>, Option<Seq<char>>)> {
    ranges_of(split_on(header, ','))
}

/// Whether a language tag names Chinese: it starts with "zh", ignoring
/// ASCII case.
pub open spec fn is_chinese_tag(tag: Seq<char>) -> bool {
    tag.len() >= 2 && text::ascii_lower(tag[0]) == 'z' && text::ascii_lower(tag[1]) == 'h'
}

/// One language range of an `Accept-Language` header: the tag and the text
/// of its q-value, if it has one (a range without one weighs 1.0, and text
/// that is not a number weighs 0.0).
pub struct LangRange {
    pub tag: String,
    pub q: Option<String>,
}

impl View for LangRange {
    type V = (Seq<char>, Option<Seq<char>>);

    open spec fn view(&self) -> Self::V {
        (self.tag@, text::opt_view(self.q))
    }
}

pub open spec fn ranges_view(v: Seq<LangRange>) -> Seq<(Seq<char>, Option<Seq<char>>)> {
    v.map_values(|r: LangRange| r@)
}

// ---------------------------------------------------------------------------
// Lemmas
// ---------------------------------------------------------------------------

/// How the pieces of a prefix grow by one character.
pub proof fn lemma_split_on_step(v: Seq<char>, i: int, c: char)
    requires
        0 <= i < v.len(),
    ensures
        split_on(v.take(i + 1), c) == if v[i] == c {
            split_on(v.take(i), c).push(Seq::<char>::empty())
        } else {
            split_on(v.take(i), c).update(
                split_on(v.take(i), c).len() - 1,
                split_on(v.take(i), c).last().push(v[i]),
            )
        },
{
    assert(v.take(i + 1).drop_last() =~= v.take(i));
}

/// `find_char` is the index before which no `c` occurs and at which `c`
/// occurs (or the end).
pub proof fn lemma_find_char(s: Seq<char>, c: char, i: int)
    requires
        0 <= i <= s.len(),
        forall|k: int| 0 <= k < i ==> s[k] != c,
        i == s.len() || s[i] == c,
    ensures
        find_char(s, c) == i,
    decreases i,
{
    if i > 0 {
        lemma_find_char(s.drop_first(), c, i - 1);
    }
}

/// Splitting always gives at least one piece.
proof fn lemma_split_on_nonempty(s: Seq<char>, c: char)
    ensures
        split_on(s, c).len() >= 1,
    decreases s.len(),
{
    if s.len() > 0 {
        lemma_split_on_nonempty(s.drop_last(), c);
    }
}

/// Splitting `s c t` at `c` gives the pieces of `s`, then those of `t`.
proof fn lemma_split_on_join(s: Seq<char>, t: Seq<char>, c: char)
    ensures
        split_on(s + seq![c] + t, c) == split_on(s, c) + split_on(t, c),
    decreases t.len(),
{
    let w = s + seq![c] + t;
    if t.len() == 0 {
        assert(w.drop_last() =~= s);
        assert(split_on(t, c) =~= seq![Seq::<char>::empty()]);
        assert(split_on(s, c).push(Seq::<char>::empty()) =~= split_on(s, c) + split_on(t, c));
    } else {
        assert(w.drop_last() =~= s + seq![c] + t.drop_last());
        lemma_split_on_join(s, t.drop_last(), c);
        lemma_split_on_nonempty(t.drop_last(), c);
        let a = split_on(s, c);
        let b = split_on(t.drop_last(), c);
        if t.last() == c {
            assert((a + b).push(Seq::<char>::empty()) =~= a + b.push(Seq::<char>::empty()));
        } else {
            assert((a + b).update((a + b).len() - 1, (a + b).last().push(t.last())) =~= a + b.update(
                b.len() - 1,
                b.last().push(t.last()),
            ));
        }
    }
}

/// Text without the separator is one piece.
proof fn lemma_split_on_none(s: Seq<char>, c: char)
    requires
        forall|i: int| 0 <= i < s.len() ==> s[i] != c,
    ensures
        split_on(s, c) == seq![s],
    decreases s.len(),
{
    if s.len() == 0 {
        assert(s =~= Seq::<char>::empty());
        assert(split_on(s, c) =~= seq![s]);
    } else {
        lemma_split_on_none(s.drop_last(), c);
        assert(s.drop_last().push(s.last()) =~= s);
        assert(seq![s.drop_last()].update(0, s.drop_last().push(s.last())) =~= seq![s]);
    }
}

/// The ranges of two lists of elements, one after the other.
proof fn lemma_ranges_of_join(p: Seq<Seq<char>>, q: Seq<Seq<char>>)
    ensures
        ranges_of(p + q) == ranges_of(p) + ranges_of(q),
    decreases q.len(),
{
    if q.len() == 0 {
        assert(p + q =~= p);
        assert(ranges_of(p) + ranges_of(q) =~= ranges_of(p));
    } else {
        assert((p + q).drop_last() =~= p + q.drop_last());
        assert((p + q).last() == q.last());
        lemma_ranges_of_join(p, q.drop_last());
        let a = ranges_of(p);
        let b = ranges_of(q.drop_last());
        let r = range_of_part(text::trim_ws(q.last()));
        assert((a + b).push(r) =~= a + b.push(r));
    }
}

/// The ranges of two headers joined by a comma are those of the first
/// followed by those of the second: elements are read one by one, in order.
pub proof fn lemma_header_ranges_join(a: Seq<char>, b: Seq<char>)
    ensures
        header_ranges(a + ","@ + b) == header_ranges(a) + header_ranges(b),
{
    reveal_strlit(",");
    assert(","@ =~= seq![',']);
    lemma_split_on_join(a, b, ',');
    lemma_ranges_of_join(split_on(a, ','), split_on(b, ','));
}

/// A header of one tag, without a comma or parameters, names that tag
/// (trimmed) with no q-value; a blank header names no range.
pub proof fn lemma_single_tag_header(h: Seq<char>)
    requires
        forall|i: int| 0 <= i < h.len() ==> h[i] != ',' && h[i] != ';',
    ensures
        text::trim_ws(h).len() > 0 ==> header_ranges(h) == seq![(text::trim_ws(h), None::<Seq<char>>)],
        text::trim_ws(h).len() == 0 ==> header_ranges(h).len() == 0,
{
    lemma_split_on_none(h, ',');
    let parts = seq![h];
    assert(parts.drop_last() =~= Seq::<Seq<char>>::empty());
    assert(parts.last() == h);
    assert(header_ranges(h) == ranges_of(parts));
    assert(ranges_of(Seq::<Seq<char>>::empty()) =~= Seq::<(Seq<char>, Option<Seq<char>>)>::empty());
    let t = text::trim_ws(h);
    text::lemma_trim_start_ws_shape(h);
    let u = text::trim_start_ws(h);
    text::lemma_trim_end_ws_shape(u);
    assert forall|i: int| 0 <= i < t.len() implies t[i] != ';' by {
        assert(t[i] == u[i]);
        assert(u[i] == h[h.len() - u.len() + i]);
    }
    lemma_find_char(t, ';', t.len() as int);
    assert(seq![(t, None::<Seq<char>>)] =~= Seq::<(Seq<char>, Option<Seq<char>>)>::empty().push(
        (t, None::<Seq<char>>),
    ));
}

/// A header element `tag;q=value` names the tag with that q-value text,
/// for a tag and a value without commas or semicolons that are not empty
/// and neither start nor end with whitespace.
pub proof fn lemma_weighted_tag_header(tag: Seq<char>, value: Seq<char>)
    requires
        tag.len() > 0,
        !text::is_ws(tag[0]),
        !text::is_ws(tag.last()),
        value.len() > 0,
        !text::is_ws(value[0]),
        !text::is_ws(value.last()),
        forall|i: int| 0 <= i < tag.len() ==> tag[i] != ',' && tag[i] != ';',
        forall|i: int| 0 <= i < value.len() ==> value[i] != ',' && value[i] != ';',
    ensures
        header_ranges(tag + ";q="@ + value) == seq![(tag, Some(value))],
{
    reveal_strlit(";q=");
    reveal_strlit("q=");
    let h = tag + ";q="@ + value;
    let rest = "q="@ + value;
    assert(h.skip(tag.len() as int + 1) =~= rest);
    assert(h.take(tag.len() as int) =~= tag);
    assert forall|i: int| 0 <= i < h.len() implies h[i] != ',' by {
        if i >= tag.len() + 3 {
            assert(h[i] == value[i - tag.len() - 3]);
        }
    }
    assert forall|i: int| 0 <= i < rest.len() implies rest[i] != ';' by {
        if i >= 2 {
            assert(rest[i] == value[i - 2]);
        }
    }
    lemma_split_on_none(h, ',');
    let parts = seq![h];
    assert(parts.drop_last() =~= Seq::<Seq<char>>::empty());
    assert(parts.last() == h);
    assert(ranges_of(Seq::<Seq<char>>::empty()) =~= Seq::<(Seq<char>, Option<Seq<char>>)>::empty());
    assert(h[0] == tag[0]);
    assert(h.last() == value.last());
    text::lemma_trim_ws_of_trimmed(h);
    text::lemma_trim_ws_of_trimmed(tag);
    text::lemma_trim_ws_of_trimmed(value);
    assert(h[tag.len() as int] == ';');
    lemma_find_char(h, ';', tag.len() as int);
    lemma_split_on_none(rest, ';');
    let params = seq![rest];
    assert(params.drop_last() =~= Seq::<Seq<char>>::empty());
    assert(params.last() == rest);
    assert(rest[0] == 'q');
    assert(rest.last() == value.last());
    text::lemma_trim_ws_of_trimmed(rest);
    assert(rest.take(2) =~= "q="@);
    assert(rest.skip(2) =~= value);
    assert(q_param(rest) == Some(value));
    assert(last_q(params) == Some(value));
    assert(range_of_part(h) == (tag, Some(value)));
    assert(seq![(tag, Some(value))] =~= Seq::<(Seq<char>, Option<Seq<char>>)>::empty().push(
        (tag, Some(value)),
    ));
}

// ---------------------------------------------------------------------------
// Code
// ---------------------------------------------------------------------------

/// The `q=` value of the parameter `v[lo..hi]`, if it is one.
fn q_param_of(v: &Vec<char>, lo: usize, hi: usize, qeq: &Vec<char>) -> (r: Option<String>)
    requires
        lo <= hi <= v.len(),
        qeq@ == "q="@,
    ensures
        text::opt_view(r) == q_param(v@.subrange(lo as int, hi as int)),
{
    let (a, b) = trim_ws_bounds(v, lo, hi);
    if range_starts_with(v, a, b, qeq) {
        let (c, d) = trim_ws_bounds(v, a + qeq.len(), b);
        assert(v@.subrange(a as int, b as int).skip(qeq@.len() as int) =~= v@.subrange(
            a + qeq.len(),
            b as int,
        ));
        Some(string_of(v, c, d))
    } else {
        None
    }
}

/// The last `q=` value among the `;`-separated parameters in `v[lo..hi]`.
fn last_q_of(v: &Vec<char>, lo: usize, hi: usize, qeq: &Vec<char>) -> (r: Option<String>)
    requires
        lo <= hi <= v.len(),
        qeq@ == "q="@,
    ensures
        text::opt_view(r) == last_q(split_on(v@.subrange(lo as int, hi as int), ';')),
{
    let ghost w = v@.subrange(lo as int, hi as int);
    let ghost mut done: Seq<Seq<char>> = seq![];
    let mut q: Option<String> = None;
    let mut start = lo;
    let mut i = lo;
    assert(w.take(0) =~= Seq::<char>::empty());
    assert(v@.subrange(start as int, i as int) =~= Seq::<char>::empty());
    assert(split_on(w.take(0), ';') =~= done.push(v@.subrange(start as int, i as int)));
    while i < hi
        invariant
            lo <= start <= i <= hi <= v.len(),
            qeq@ == "q="@,
            w == v@.subrange(lo as int, hi as int),
            split_on(w.take(i - lo), ';') == done.push(v@.subrange(start as int, i as int)),
            text::opt_view(q) == last_q(done),
        decreases hi - i,
    {
        proof {
            lemma_split_on_step(w, i - lo, ';');
            assert(w[i - lo] == v@[i as int]);
        }
        if v[i] == ';' {
            let found = q_param_of(v, start, i, qeq);
            proof {
                let piece = v@.subrange(start as int, i as int);
                assert(done.push(piece).drop_last() =~= done);
                assert(done.push(piece).last() == piece);
            }
            match found {
                Some(x) => {
                    q = Some(x);
                },
                None => {},
            }
            proof {
                done = done.push(v@.subrange(start as int, i as int));
                assert(v@.subrange(i + 1, i + 1) =~= Seq::<char>::empty());
            }
            start = i + 1;
        } else {
            proof {
                assert(v@.subrange(start as int, i + 1) =~= v@.subrange(start as int, i as int).push(
                    v@[i as int],
                ));
                assert(done.push(v@.subrange(start as int, i as int)).update(
                    done.len() as int,
                    v@.subrange(start as int, i + 1),
                ) =~= done.push(v@.subrange(start as int, i + 1)));
            }
        }
        i = i + 1;
    }
    assert(w.take(hi - lo) =~= w);
    let found = q_param_of(v, start, hi, qeq);
    proof {
        let piece = v@.subrange(start as int, hi as int);
        assert(done.push(piece).drop_last() =~= done);
    }
    match found {
        Some(x) => Some(x),
        None => q,
    }
}

/// The range of the trimmed, non-empty element `v[lo..hi]`.
fn range_of(v: &Vec<char>, lo: usize, hi: usize, qeq: &Vec<char>) -> (r: LangRange)
    requires
        lo <= hi <= v.len(),
        qeq@ == "q="@,
    ensures
        r@ == range_of_part(v@.subrange(lo as int, hi as int)),
{
    let ghost part = v@.subrange(lo as int, hi as int);
    let mut j = lo;
    while j < hi && v[j] != ';'
        invariant
            lo <= j <= hi <= v.len(),
            forall|k: int| lo <= k < j ==> v@[k] != ';',
        decreases hi - j,
    {
        j = j + 1;
    }
    proof {
        lemma_find_char(part, ';', j - lo);
    }
    if j < hi {
        let (a, b) = trim_ws_bounds(v, lo, j);
        assert(part.take(j - lo) =~= v@.subrange(lo as int, j as int));
        assert(part.skip(j - lo + 1) =~= v@.subrange(j + 1, hi as int));
        let tag = string_of(v, a, b);
        let q = last_q_of(v, j + 1, hi, qeq);
        LangRange { tag, q }
    } else {
        LangRange { tag: string_of(v, lo, hi), q: None }
    }
}

/// Adds the range of the element `v[lo..hi]` to `out`, unless the element
/// or its tag is empty.
fn add_range(out: &mut Vec<LangRange>, v: &Vec<char>, lo: usize, hi: usize, qeq: &Vec<char>)
    requires
        lo <= hi <= v.len(),
        qeq@ == "q="@,
    ensures
        ranges_view(final(out)@) == {
            let p = text::trim_ws(v@.subrange(lo as int, hi as int));
            if p.len() == 0 {
                ranges_view(old(out)@)
            } else if range_of_part(p).0.len() == 0 {
                ranges_view(old(out)@)
            } else {
                ranges_view(old(out)@).push(range_of_part(p))
            }
        },
{
    let (a, b) = trim_ws_bounds(v, lo, hi);
    if a == b {
        return;
    }
    let r = range_of(v, a, b, qeq);
    if chars_of(r.tag.as_str()).len() == 0 {
        return;
    }
    out.push(r);
    assert(ranges_view(out@) =~= ranges_view(old(out)@).push(r@));
}

/// The language ranges of an `Accept-Language` header, in header order:
/// for each comma-separated element that is not blank, its tag (before the
/// first `;`, trimmed) and the trimmed text of its last `q=` parameter;
/// elements whose tag is empty are left out.
pub fn language_ranges(header: &str) -> (r: Vec<LangRange>)
    ensures
        ranges_view(r@) == header_ranges(header@),
{
    let v = chars_of(header);
    let qeq = chars_of("q=");
    let ghost mut done: Seq<Seq<char>> = seq![];
    let mut out: Vec<LangRange> = Vec::new();
    let mut start: usize = 0;
    let mut i: usize = 0;
    assert(v@.take(0) =~= Seq::<char>::empty());
    assert(split_on(v@.take(0), ',') =~= done.push(v@.subrange(0, 0)));
    assert(ranges_view(out@) =~= ranges_of(done));
    while i < v.len()
        invariant
            start <= i <= v.len(),
            v@ == header@,
            qeq@ == "q="@,
            split_on(v@.take(i as int), ',') == done.push(v@.subrange(start as int, i as int)),
            ranges_view(out@) == ranges_of(done),
        decreases v.len() - i,
    {
        proof {
            lemma_split_on_step(v@, i as int, ',');
        }
        if v[i] == ',' {
            add_range(&mut out, &v, start, i, &qeq);
            proof {
                let piece = v@.subrange(start as int, i as int);
                assert(done.push(piece).drop_last() =~= done);
                done = done.push(piece);
                assert(v@.subrange(i + 1, i + 1) =~= Seq::<char>::empty());
            }
            start = i + 1;
        } else {
            proof {
                assert(v@.subrange(start as int, i + 1) =~= v@.subrange(start as int, i as int).push(
                    v@[i as int],
                ));
                assert(done.push(v@.subrange(start as int, i as int)).update(
                    done.len() as int,
                    v@.subrange(start as int, i + 1),
                ) =~= done.push(v@.subrange(start as int, i + 1)));
            }
        }
        i = i + 1;
    }
    assert(v@.take(v.len() as int) =~= v@);
    add_range(&mut out, &v, start, v.len(), &qeq);
    proof {
        let piece = v@.subrange(start as int, v.len() as int);
        assert(done.push(piece).drop_last() =~= done);
    }
    out
}

/// A tag is Chinese exactly when its first two characters are `z` and `h`,
/// each in either case: "zh", "zh-CN", "ZH-tw" and "Zh" are Chinese; "en",
/// "z", "xzh" and the empty tag are not.
pub proof fn lemma_chinese_tag(tag: Seq<char>)
    ensures
        is_chinese_tag(tag) <==> tag.len() >= 2 && (tag[0] == 'z' || tag[0] == 'Z') && (tag[1] == 'h'
            || tag[1] == 'H'),
{
    if tag.len() >= 2 {
        let a = tag[0];
        let b = tag[1];
        assert(('z' as u32) == 122 && ('Z' as u32) == 90 && ('h' as u32) == 104 && ('H' as u32) == 72);
        vstd::utf8::char_u32_cast(a, a as u32);
        vstd::utf8::char_u32_cast(b, b as u32);
        vstd::utf8::char_u32_cast('z', 122);
        vstd::utf8::char_u32_cast('Z', 90);
        vstd::utf8::char_u32_cast('h', 104);
        vstd::utf8::char_u32_cast('H', 72);
        assert((a as u32) == 122 ==> a == 'z');
        assert((a as u32) == 90 ==> a == 'Z');
        assert((b as u32) == 104 ==> b == 'h');
        assert((b as u32) == 72 ==> b == 'H');
        if 65 <= a as u32 <= 90 {
            assert((((a as u32) + 32) as char) as u32 == (a as u32) + 32);
        }
        if 65 <= b as u32 <= 90 {
            assert((((b as u32) + 32) as char) as u32 == (b as u32) + 32);
        }
    }
}

/// The language of a tag: Chinese when it starts with "zh" (ignoring ASCII
/// case), English otherwise.
pub fn lang_of_tag(tag: &str) -> (l: Lang)
    ensures
        l == (if is_chinese_tag(tag@) {
            Lang::Zh
        } else {
            Lang::En
        }),
{
    let v = chars_of(tag);
    if v.len() >= 2 && to_ascii_lower(v[0]) == 'z' && to_ascii_lower(v[1]) == 'h' {
        Lang::Zh
    } else {
        Lang::En
    }
}

/// The UI language for the preferred range of the header (`None` when the
/// header is missing or names no range): Chinese only when that range's tag
/// is Chinese, English otherwise.
pub fn lang_of_best(best: Option<&str>) -> (l: Lang)
    ensures
        l == match best {
            Some(t) => if is_chinese_tag(t@) {
                Lang::Zh
            } else {
                Lang::En
            },
            None => Lang::En,
        },
{
    match best {
        Some(t) => lang_of_tag(t),
        None => Lang::En,
    }
}

} // verus!
