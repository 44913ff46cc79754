//! The persisted form of the record table: one JSON array of record
//! objects. Both directions are verified, and parsing inverts encoding.

use vstd::prelude::*;
use vstd::string::{StrSliceExecFns, StringExecFns};

use crate::models::{DownloadItem, DownloadStatus, ItemView};
use crate::text::push_char;

verus! {

/// JSON escaping of one character: quote, backslash, newline, carriage
/// return and tab take a two-character escape; everything else stands raw.
pub open spec fn esc_char(c: char) -> Seq<char> {
    if c == '"' {
        seq!['\\', '"']
    } else if c == '\\' {
        seq!['\\', '\\']
    } else if c == '\n' {
        seq!['\\', 'n']
    } else if c == '\r' {
        seq!['\\', 'r']
    } else if c == '\t' {
        seq!['\\', 't']
    } else {
        seq![c]
    }
}

/// JSON escaping of a string body.
pub open spec fn esc(s: Seq<char>) -> Seq<char>
    decreases s.len(),
{
    if s.len() == 0 {
        Seq::empty()
    } else {
        esc_char(s[0]) + esc(s.drop_first())
    }
}

pub(crate) proof fn lemma_esc_concat(a: Seq<char>, b: Seq<char>)
    ensures
        esc(a + b) == esc(a) + esc(b),
    decreases a.len(),
{
    if a.len() == 0 {
        assert(a + b =~= b);
        assert(esc(a) + esc(b) =~= esc(b));
    } else {
        lemma_esc_concat(a.drop_first(), b);
        assert((a + b).drop_first() =~= a.drop_first() + b);
        assert((a + b)[0] == a[0]);
        assert(esc_char(a[0]) + (esc(a.drop_first()) + esc(b)) =~= (esc_char(a[0]) + esc(
            a.drop_first(),
        )) + esc(b));
    }
}

/// The serialized label of a status.
pub open spec fn status_json(st: DownloadStatus) -> Seq<char> {
    match st {
        DownloadStatus::Unknown => "unknown"@,
        DownloadStatus::Pending => "pending"@,
        DownloadStatus::Idle => "idle"@,
        DownloadStatus::InProgress => "inProgress"@,
        DownloadStatus::Paused => "paused"@,
        DownloadStatus::Cancelled => "cancelled"@,
        DownloadStatus::Completed => "completed"@,
    }
}

/// The digit character of a value below ten.
pub open spec fn digit_char(d: nat) -> char {
    if d == 0 {
        '0'
    } else if d == 1 {
        '1'
    } else if d == 2 {
        '2'
    } else if d == 3 {
        '3'
    } else if d == 4 {
        '4'
    } else if d == 5 {
        '5'
    } else if d == 6 {
        '6'
    } else if d == 7 {
        '7'
    } else if d == 8 {
        '8'
    } else {
        '9'
    }
}

/// The decimal form of a number, most significant digit first.
pub open spec fn dec_u64(n: nat) -> Seq<char>
    decreases n,
{
    if n < 10 {
        seq![digit_char(n)]
    } else {
        dec_u64(n / 10).push(digit_char(n % 10))
    }
}

/// The serialized form of one record.
pub open spec fn enc_item(v: ItemView) -> Seq<char> {
    "{\"url\":\""@ + esc(v.url) + seq!['"'] + ",\"path\":\""@ + esc(v.path) + seq!['"']
        + ",\"progress\":"@ + dec_u64(v.progress as nat) + ",\"status\":\""@ + status_json(
        v.status,
    ) + seq!['"'] + "}"@
}

/// The serialized forms of a non-empty table's records, comma-separated;
/// empty for an empty table.
pub open spec fn enc_items(m: Seq<ItemView>) -> Seq<char>
    decreases m.len(),
{
    if m.len() == 0 {
        Seq::empty()
    } else if m.len() == 1 {
        enc_item(m[0])
    } else {
        enc_item(m[0]) + seq![','] + enc_items(m.drop_first())
    }
}

/// The serialized form of the whole table: one JSON array.
pub open spec fn enc_store(m: Seq<ItemView>) -> Seq<char> {
    seq!['['] + enc_items(m) + seq![']']
}

/// Appends the escaped body of `s`.
fn append_escaped(out: &mut String, s: &str)
    ensures
        final(out)@ == old(out)@ + esc(s@),
{
    let n = s.unicode_len();
    let mut i: usize = 0;
    while i < n
        invariant
            i <= n,
            n == s@.len(),
            out@ == old(out)@ + esc(s@.take(i as int)),
        decreases n - i,
    {
        let c = s.get_char(i);
        proof {
            assert(s@.take(i + 1) =~= s@.take(i as int).push(c));
            lemma_esc_concat(s@.take(i as int), seq![c]);
            assert(s@.take(i as int).push(c) =~= s@.take(i as int) + seq![c]);
            assert(esc(Seq::<char>::empty()) =~= Seq::<char>::empty());
            assert(seq![c].drop_first() =~= Seq::<char>::empty());
            assert(seq![c][0] == c);
            assert(esc(seq![c]) =~= esc_char(c));
            reveal_strlit("\\\"");
            reveal_strlit("\\\\");
            reveal_strlit("\\n");
            reveal_strlit("\\r");
            reveal_strlit("\\t");
        }
        if c == '"' {
            out.append("\\\"");
            proof {
                assert("\\\""@ =~= esc_char(c));
            }
        } else if c == '\\' {
            out.append("\\\\");
            proof {
                assert("\\\\"@ =~= esc_char(c));
            }
        } else if c == '\n' {
            out.append("\\n");
            proof {
                assert("\\n"@ =~= esc_char(c));
            }
        } else if c == '\r' {
            out.append("\\r");
            proof {
                assert("\\r"@ =~= esc_char(c));
            }
        } else if c == '\t' {
            out.append("\\t");
            proof {
                assert("\\t"@ =~= esc_char(c));
            }
        } else {
            push_char(out, c);
            proof {
                assert(seq![c] =~= esc_char(c));
            }
        }
        proof {
            assert(out@ =~= old(out)@ + esc(s@.take(i + 1)));
        }
        i += 1;
    }
    proof {
        assert(s@.take(n as int) =~= s@);
    }
}

/// The digit character of a value below ten.
fn digit_char_of(d: u64) -> (c: char)
    requires
        d < 10,
    ensures
        c == digit_char(d as nat),
{
    if d == 0 {
        '0'
    } else if d == 1 {
        '1'
    } else if d == 2 {
        '2'
    } else if d == 3 {
        '3'
    } else if d == 4 {
        '4'
    } else if d == 5 {
        '5'
    } else if d == 6 {
        '6'
    } else if d == 7 {
        '7'
    } else if d == 8 {
        '8'
    } else {
        '9'
    }
}

/// Appends the decimal form of `n`.
fn append_u64(out: &mut String, n: u64)
    ensures
        final(out)@ == old(out)@ + dec_u64(n as nat),
    decreases n,
{
    if n < 10 {
        push_char(out, digit_char_of(n));
    } else {
        append_u64(out, n / 10);
        push_char(out, digit_char_of(n % 10));
        proof {
            assert(old(out)@ + dec_u64((n / 10) as nat) + seq![digit_char((n % 10) as nat)] =~= old(
                out,
            )@ + dec_u64(n as nat));
        }
    }
}

/// Appends the serialized label of `st`.
fn append_status(out: &mut String, st: DownloadStatus)
    ensures
        final(out)@ == old(out)@ + status_json(st),
{
    match st {
        DownloadStatus::Unknown => out.append("unknown"),
        DownloadStatus::Pending => out.append("pending"),
        DownloadStatus::Idle => out.append("idle"),
        DownloadStatus::InProgress => out.append("inProgress"),
        DownloadStatus::Paused => out.append("paused"),
        DownloadStatus::Cancelled => out.append("cancelled"),
        DownloadStatus::Completed => out.append("completed"),
    }
}

/// Appends the serialized form of one record.
fn append_item(out: &mut String, item: &DownloadItem)
    ensures
        final(out)@ == old(out)@ + enc_item(item@),
{
    out.append("{\"url\":\"");
    append_escaped(out, item.url.as_str());
    out.append("\",\"path\":\"");
    append_escaped(out, item.path.as_str());
    out.append("\",\"progress\":");
    append_u64(out, item.progress);
    out.append(",\"status\":\"");
    append_status(out, item.status);
    out.append("\"}");
    proof {
        reveal_strlit("\",\"path\":\"");
        reveal_strlit(",\"path\":\"");
        reveal_strlit("\",\"progress\":");
        reveal_strlit(",\"progress\":");
        reveal_strlit("\"}");
        reveal_strlit("}");
        assert("\",\"path\":\""@ =~= seq!['"'] + ",\"path\":\""@);
        assert("\",\"progress\":"@ =~= seq!['"'] + ",\"progress\":"@);
        assert("\"}"@ =~= seq!['"'] + "}"@);
        assert(out@ =~= old(out)@ + enc_item(item@));
    }
}

/// The serialized form of a record table.
pub fn encode_items(items: &Vec<DownloadItem>) -> (r: String)
    ensures
        r@ == enc_store(crate::store::views_of(items@)),
{
    let ghost m = crate::store::views_of(items@);
    let mut out = String::new();
    push_char(&mut out, '[');
    let n = items.len();
    let mut i: usize = 0;
    while i < n
        invariant
            i <= n,
            n == items@.len(),
            m == crate::store::views_of(items@),
            m.len() == n,
            out@ == seq!['['] + enc_items(m.take(i as int)),
        decreases n - i,
    {
        if i > 0 {
            push_char(&mut out, ',');
        }
        append_item(&mut out, &items[i]);
        proof {
            lemma_enc_items_step(m, i as int);
            assert(items@[i as int]@ == m[i as int]);
            if i > 0 {
                assert(out@ =~= seq!['['] + (enc_items(m.take(i as int)) + seq![','] + enc_item(
                    m[i as int],
                )));
            } else {
                assert(enc_items(m.take(0)) =~= Seq::<char>::empty());
                assert(out@ =~= seq!['['] + enc_items(m.take(1)));
            }
        }
        i += 1;
    }
    push_char(&mut out, ']');
    proof {
        assert(m.take(n as int) =~= m);
        assert(out@ =~= enc_store(m));
    }
    out
}

/// One step of `enc_items` over a prefix of the table: appending record `i`
/// extends the serialized prefix by a comma (when it is not the first) and
/// the record's own form.
proof fn lemma_enc_items_step(m: Seq<ItemView>, i: int)
    requires
        0 <= i < m.len(),
    ensures
        i == 0 ==> enc_items(m.take(1)) == enc_item(m[0]),
        i > 0 ==> enc_items(m.take(i + 1)) == enc_items(m.take(i)) + seq![','] + enc_item(m[i]),
    decreases i,
{
    if i == 0 {
        assert(m.take(1).len() == 1);
        assert(m.take(1)[0] == m[0]);
    } else {
        lemma_enc_items_step(m.drop_first(), i - 1);
        assert(m.take(i + 1).drop_first() =~= m.drop_first().take(i));
        assert(m.take(i).drop_first() =~= m.drop_first().take(i - 1));
        assert(m.take(i + 1)[0] == m[0]);
        assert(m.take(i)[0] == m[0]);
        assert(m.drop_first().take(i)[i - 1] == m[i]);
        if i == 1 {
            assert(enc_items(m.take(2)) == enc_item(m[0]) + seq![','] + enc_items(
                m.drop_first().take(1),
            ));
            assert(enc_items(m.take(1)) == enc_item(m[0]));
            assert(enc_item(m[0]) + seq![','] + enc_items(m.drop_first().take(1)) =~= enc_items(
                m.take(1),
            ) + seq![','] + enc_item(m[1]));
        } else {
            assert(enc_items(m.take(i + 1)) == enc_item(m[0]) + seq![','] + enc_items(
                m.drop_first().take(i),
            ));
            assert(enc_items(m.take(i)) == enc_item(m[0]) + seq![','] + enc_items(
                m.drop_first().take(i - 1),
            ));
            assert(enc_item(m[0]) + seq![','] + (enc_items(m.drop_first().take(i - 1)) + seq![',']
                + enc_item(m[i])) =~= (enc_item(m[0]) + seq![','] + enc_items(
                m.drop_first().take(i - 1),
            )) + seq![','] + enc_item(m[i]));
        }
    }
}

} // verus!

// ---------------------------------------------------------------------------
// Parsing. Each spec parser consumes a prefix of the character sequence and
// yields the remainder; the executable parser walks the same input by index.
// ---------------------------------------------------------------------------

verus! {

/// Remainder of `s` after a fixed fragment, when `s` starts with it.
pub open spec fn sp_tag(s: Seq<char>, tag: Seq<char>) -> Option<Seq<char>> {
    if s.len() >= tag.len() && s.take(tag.len() as int) == tag {
        Some(s.skip(tag.len() as int))
    } else {
        None
    }
}

/// The character an escape code stands for.
pub open spec fn unesc_char(c: char) -> Option<char> {
    if c == '"' {
        Some('"')
    } else if c == '\\' {
        Some('\\')
    } else if c == 'n' {
        Some('\n')
    } else if c == 'r' {
        Some('\r')
    } else if c == 't' {
        Some('\t')
    } else {
        None
    }
}

/// A decoded value prepended to a parse result.
pub open spec fn sp_prepend(c: char, r: Option<(Seq<char>, Seq<char>)>) -> Option<
    (Seq<char>, Seq<char>),
> {
    match r {
        Some(p) => Some((seq![c] + p.0, p.1)),
        None => None,
    }
}

/// A string body up to and including its closing quote: the decoded
/// characters, and the remainder after the quote.
pub open spec fn sp_string(s: Seq<char>) -> Option<(Seq<char>, Seq<char>)>
    decreases s.len(),
{
    if s.len() == 0 {
        None
    } else if s[0] == '"' {
        Some((Seq::empty(), s.drop_first()))
    } else if s[0] == '\\' {
        if s.len() < 2 {
            None
        } else {
            match unesc_char(s[1]) {
                Some(c) => sp_prepend(c, sp_string(s.skip(2))),
                None => None,
            }
        }
    } else {
        sp_prepend(s[0], sp_string(s.drop_first()))
    }
}

/// Whether `c` is a decimal digit.
pub open spec fn is_digit(c: char) -> bool {
    c == '0' || c == '1' || c == '2' || c == '3' || c == '4' || c == '5' || c == '6' || c == '7'
        || c == '8' || c == '9'
}

/// The value of a digit character.
pub open spec fn digit_val(c: char) -> nat {
    if c == '0' {
        0
    } else if c == '1' {
        1
    } else if c == '2' {
        2
    } else if c == '3' {
        3
    } else if c == '4' {
        4
    } else if c == '5' {
        5
    } else if c == '6' {
        6
    } else if c == '7' {
        7
    } else if c == '8' {
        8
    } else {
        9
    }
}

/// The longest digit prefix of `s`, and the remainder after it.
pub open spec fn sp_digits(s: Seq<char>) -> (Seq<char>, Seq<char>)
    decreases s.len(),
{
    if s.len() == 0 || !is_digit(s[0]) {
        (Seq::empty(), s)
    } else {
        let p = sp_digits(s.drop_first());
        (seq![s[0]] + p.0, p.1)
    }
}

/// The value of a digit string, most significant digit first.
pub open spec fn digits_val(ds: Seq<char>) -> nat
    decreases ds.len(),
{
    if ds.len() == 0 {
        0
    } else {
        digits_val(ds.drop_last()) * 10 + digit_val(ds.last())
    }
}

/// A number: a non-empty digit run whose value fits the field.
pub open spec fn sp_number(s: Seq<char>) -> Option<(u64, Seq<char>)> {
    let p = sp_digits(s);
    if p.0.len() == 0 {
        None
    } else if digits_val(p.0) > u64::MAX as nat {
        None
    } else {
        Some((digits_val(p.0) as u64, p.1))
    }
}

/// The status a serialized label stands for.
pub open spec fn status_of_label(t: Seq<char>) -> Option<DownloadStatus> {
    if t == "unknown"@ {
        Some(DownloadStatus::Unknown)
    } else if t == "pending"@ {
        Some(DownloadStatus::Pending)
    } else if t == "idle"@ {
        Some(DownloadStatus::Idle)
    } else if t == "inProgress"@ {
        Some(DownloadStatus::InProgress)
    } else if t == "paused"@ {
        Some(DownloadStatus::Paused)
    } else if t == "cancelled"@ {
        Some(DownloadStatus::Cancelled)
    } else if t == "completed"@ {
        Some(DownloadStatus::Completed)
    } else {
        None
    }
}

/// One serialized record: its value, and the remainder after it.
pub open spec fn sp_item(s: Seq<char>) -> Option<(ItemView, Seq<char>)> {
    match sp_tag(s, "{\"url\":\""@) {
        None => None,
        Some(s1) => match sp_string(s1) {
            None => None,
            Some(url_p) => match sp_tag(url_p.1, ",\"path\":\""@) {
                None => None,
                Some(s3) => match sp_string(s3) {
                    None => None,
                    Some(path_p) => match sp_tag(path_p.1, ",\"progress\":"@) {
                        None => None,
                        Some(s5) => match sp_number(s5) {
                            None => None,
                            Some(num_p) => match sp_tag(num_p.1, ",\"status\":\""@) {
                                None => None,
                                Some(s7) => match sp_string(s7) {
                                    None => None,
                                    Some(label_p) => match status_of_label(label_p.0) {
                                        None => None,
                                        Some(st) => match sp_tag(label_p.1, "}"@) {
                                            None => None,
                                            Some(s9) => Some(
                                                (
                                                    ItemView {
                                                        url: url_p.0,
                                                        path: path_p.0,
                                                        progress: num_p.0,
                                                        status: st,
                                                    },
                                                    s9,
                                                ),
                                            ),
                                        },
                                    },
                                },
                            },
                        },
                    },
                },
            },
        },
    }
}

proof fn lemma_sp_string_len(s: Seq<char>)
    ensures
        sp_string(s) matches Some(p) ==> p.1.len() < s.len(),
    decreases s.len(),
{
    if s.len() == 0 {
    } else if s[0] == '"' {
    } else if s[0] == '\\' {
        if s.len() >= 2 {
            lemma_sp_string_len(s.skip(2));
        }
    } else {
        lemma_sp_string_len(s.drop_first());
    }
}

proof fn lemma_sp_digits_len(s: Seq<char>)
    ensures
        sp_digits(s).0.len() + sp_digits(s).1.len() == s.len(),
    decreases s.len(),
{
    if !(s.len() == 0 || !is_digit(s[0])) {
        lemma_sp_digits_len(s.drop_first());
    }
}

proof fn lemma_sp_item_len(s: Seq<char>)
    ensures
        sp_item(s) matches Some(p) ==> p.1.len() < s.len(),
{
    match sp_tag(s, "{\"url\":\""@) {
        None => {},
        Some(s1) => {
            lemma_sp_string_len(s1);
            match sp_string(s1) {
                None => {},
                Some(url_p) => {
                    match sp_tag(url_p.1, ",\"path\":\""@) {
                        None => {},
                        Some(s3) => {
                            lemma_sp_string_len(s3);
                            match sp_string(s3) {
                                None => {},
                                Some(path_p) => {
                                    match sp_tag(path_p.1, ",\"progress\":"@) {
                                        None => {},
                                        Some(s5) => {
                                            lemma_sp_digits_len(s5);
                                            match sp_number(s5) {
                                                None => {},
                                                Some(num_p) => {
                                                    match sp_tag(num_p.1, ",\"status\":\""@) {
                                                        None => {},
                                                        Some(s7) => {
                                                            lemma_sp_string_len(s7);
                                                        },
                                                    }
                                                },
                                            }
                                        },
                                    }
                                },
                            }
                        },
                    }
                },
            }
        },
    }
}

/// The serialized records of a table, one or more, comma-separated: their
/// values, and the remainder after the last.
pub open spec fn sp_items(s: Seq<char>) -> Option<(Seq<ItemView>, Seq<char>)>
    decreases s.len(),
    via sp_items_dec
{
    match sp_item(s) {
        None => None,
        Some(p) => if p.1.len() > 0 && p.1[0] == ',' {
            match sp_items(p.1.drop_first()) {
                None => None,
                Some(q) => Some((seq![p.0] + q.0, q.1)),
            }
        } else {
            Some((seq![p.0], p.1))
        },
    }
}

#[via_fn]
proof fn sp_items_dec(s: Seq<char>) {
    lemma_sp_item_len(s);
}

/// The whole persisted form: one array holding the table's records, with
/// nothing after it.
pub open spec fn sp_store(s: Seq<char>) -> Option<Seq<ItemView>> {
    match sp_tag(s, "["@) {
        None => None,
        Some(s1) => if s1 == seq![']'] {
            Some(Seq::empty())
        } else {
            match sp_items(s1) {
                None => None,
                Some(p) => if p.1 == seq![']'] {
                    Some(p.0)
                } else {
                    None
                },
            }
        },
    }
}

} // verus!

verus! {

/// A decoded prefix prepended to a string parse result.
spec fn sp_cont(pre: Seq<char>, r: Option<(Seq<char>, Seq<char>)>) -> Option<
    (Seq<char>, Seq<char>),
> {
    match r {
        Some(p) => Some((pre + p.0, p.1)),
        None => None,
    }
}

proof fn lemma_cont_prepend(pre: Seq<char>, c: char, r: Option<(Seq<char>, Seq<char>)>)
    ensures
        sp_cont(pre, sp_prepend(c, r)) == sp_cont(pre.push(c), r),
{
    match r {
        Some(p) => {
            assert(pre + (seq![c] + p.0) =~= pre.push(c) + p.0);
        },
        None => {},
    }
}

/// Consumes the fixed fragment `tag` at position `i`.
fn expect_tag(data: &str, i: usize, tag: &str) -> (r: Option<usize>)
    requires
        i <= data@.len(),
    ensures
        match r {
            Some(j) => i <= j <= data@.len() && j - i == tag@.len() && sp_tag(
                data@.skip(i as int),
                tag@,
            ) == Some(data@.skip(j as int)),
            None => sp_tag(data@.skip(i as int), tag@) is None,
        },
{
    let m = tag.unicode_len();
    let n = data.unicode_len();
    if n - i < m {
        return None;
    }
    let mut k: usize = 0;
    while k < m
        invariant
            k <= m,
            m == tag@.len(),
            n == data@.len(),
            i + m <= n,
            forall|j: int| 0 <= j < k ==> data@[i + j] == tag@[j],
        decreases m - k,
    {
        if data.get_char(i + k) != tag.get_char(k) {
            proof {
                assert(data@.skip(i as int).take(m as int)[k as int] == data@[i + k]);
            }
            return None;
        }
        k += 1;
    }
    proof {
        assert(data@.skip(i as int).take(m as int) =~= tag@);
        assert(data@.skip(i as int).skip(m as int) =~= data@.skip((i + m) as int));
    }
    Some(i + m)
}

/// The character an escape code stands for.
fn unescape_of(c: char) -> (r: Option<char>)
    ensures
        r == unesc_char(c),
{
    if c == '"' {
        Some('"')
    } else if c == '\\' {
        Some('\\')
    } else if c == 'n' {
        Some('\n')
    } else if c == 'r' {
        Some('\r')
    } else if c == 't' {
        Some('\t')
    } else {
        None
    }
}

/// Parses a string body at position `i`, through its closing quote.
fn parse_string_at(data: &str, i: usize) -> (r: Option<(String, usize)>)
    requires
        i <= data@.len(),
    ensures
        match r {
            Some(p) => i < p.1 <= data@.len() && sp_string(data@.skip(i as int)) == Some(
                (p.0@, data@.skip(p.1 as int)),
            ),
            None => sp_string(data@.skip(i as int)) is None,
        },
{
    let n = data.unicode_len();
    let mut acc = String::new();
    let mut j = i;
    loop
        invariant
            i <= j <= n,
            n == data@.len(),
            sp_string(data@.skip(i as int)) == sp_cont(acc@, sp_string(data@.skip(j as int))),
        decreases n - j,
    {
        if j == n {
            proof {
                assert(data@.skip(j as int) =~= Seq::<char>::empty());
            }
            return None;
        }
        let c = data.get_char(j);
        proof {
            assert(data@.skip(j as int)[0] == data@[j as int]);
            assert(data@.skip(j as int).drop_first() =~= data@.skip(j + 1));
        }
        if c == '"' {
            proof {
                assert(acc@ + Seq::<char>::empty() =~= acc@);
            }
            return Some((acc, j + 1));
        } else if c == '\\' {
            if j + 1 == n {
                return None;
            }
            let e = data.get_char(j + 1);
            proof {
                assert(data@.skip(j as int)[1] == data@[j + 1]);
                assert(data@.skip(j as int).skip(2) =~= data@.skip(j + 2));
            }
            match unescape_of(e) {
                None => {
                    return None;
                },
                Some(u) => {
                    proof {
                        lemma_cont_prepend(acc@, u, sp_string(data@.skip(j + 2)));
                        assert(acc@ + seq![u] =~= acc@.push(u));
                    }
                    push_char(&mut acc, u);
                    j = j + 2;
                },
            }
        } else {
            proof {
                lemma_cont_prepend(acc@, c, sp_string(data@.skip(j + 1)));
                assert(acc@ + seq![c] =~= acc@.push(c));
            }
            push_char(&mut acc, c);
            j = j + 1;
        }
    }
}

/// The value of a digit character.
fn digit_of(c: char) -> (r: Option<u64>)
    ensures
        r is Some <==> is_digit(c),
        r matches Some(d) ==> d == digit_val(c) && d <= 9,
{
    if c == '0' {
        Some(0)
    } else if c == '1' {
        Some(1)
    } else if c == '2' {
        Some(2)
    } else if c == '3' {
        Some(3)
    } else if c == '4' {
        Some(4)
    } else if c == '5' {
        Some(5)
    } else if c == '6' {
        Some(6)
    } else if c == '7' {
        Some(7)
    } else if c == '8' {
        Some(8)
    } else if c == '9' {
        Some(9)
    } else {
        None
    }
}

/// Parses a number at position `i`.
fn parse_number_at(data: &str, i: usize) -> (r: Option<(u64, usize)>)
    requires
        i <= data@.len(),
    ensures
        match r {
            Some(p) => i < p.1 <= data@.len() && sp_number(data@.skip(i as int)) == Some(
                (p.0, data@.skip(p.1 as int)),
            ),
            None => sp_number(data@.skip(i as int)) is None,
        },
{
    let n = data.unicode_len();
    let mut j = i;
    let mut acc: u64 = 0;
    let mut overflow = false;
    while j < n && digit_of(data.get_char(j)).is_some()
        invariant
            i <= j <= n,
            n == data@.len(),
            sp_digits(data@.skip(i as int)) == (
                data@.subrange(i as int, j as int) + sp_digits(data@.skip(j as int)).0,
                sp_digits(data@.skip(j as int)).1,
            ),
            !overflow ==> acc as nat == digits_val(data@.subrange(i as int, j as int)),
            overflow ==> digits_val(data@.subrange(i as int, j as int)) > u64::MAX as nat,
        decreases n - j,
    {
        let d = digit_of(data.get_char(j)).unwrap();
        proof {
            let ds = data@.subrange(i as int, j as int);
            let ds1 = data@.subrange(i as int, j + 1);
            assert(ds1.drop_last() =~= ds);
            assert(ds1.last() == data@[j as int]);
            assert(data@.skip(j as int)[0] == data@[j as int]);
            assert(data@.skip(j as int).drop_first() =~= data@.skip(j + 1));
            assert(ds + (seq![data@[j as int]] + sp_digits(data@.skip(j + 1)).0) =~= ds1
                + sp_digits(data@.skip(j + 1)).0);
        }
        if !overflow {
            if acc <= (u64::MAX - d) / 10 {
                proof {
                    vstd::arithmetic::div_mod::lemma_fundamental_div_mod(
                        (u64::MAX - d) as int,
                        10,
                    );
                }
                acc = acc * 10 + d;
            } else {
                proof {
                    vstd::arithmetic::div_mod::lemma_fundamental_div_mod(
                        (u64::MAX - d) as int,
                        10,
                    );
                    assert(acc as nat * 10 + d > u64::MAX as nat) by (nonlinear_arith)
                        requires
                            acc as nat > ((u64::MAX - d) as nat) / 10,
                            (u64::MAX - d) as nat == 10 * (((u64::MAX - d) as nat) / 10) + (
                            (u64::MAX - d) as nat) % 10,
                            ((u64::MAX - d) as nat) % 10 < 10,
                            d <= 9,
                    ;
                }
                overflow = true;
            }
        } else {
            proof {
                let ds = data@.subrange(i as int, j as int);
                assert(digits_val(ds) * 10 >= digits_val(ds)) by (nonlinear_arith);
            }
        }
        j += 1;
    }
    proof {
        assert(data@.skip(j as int).len() == n - j);
        if j < n {
            assert(data@.skip(j as int)[0] == data@[j as int]);
        }
        assert(sp_digits(data@.skip(j as int)) == (
            Seq::<char>::empty(),
            data@.skip(j as int),
        ));
        assert(data@.subrange(i as int, j as int) + Seq::<char>::empty() =~= data@.subrange(
            i as int,
            j as int,
        ));
    }
    if j == i {
        return None;
    }
    if overflow {
        return None;
    }
    Some((acc, j))
}

/// The status a serialized label stands for.
fn status_of(label: &String) -> (r: Option<DownloadStatus>)
    ensures
        r == status_of_label(label@),
{
    if *label == String::from_str("unknown") {
        Some(DownloadStatus::Unknown)
    } else if *label == String::from_str("pending") {
        Some(DownloadStatus::Pending)
    } else if *label == String::from_str("idle") {
        Some(DownloadStatus::Idle)
    } else if *label == String::from_str("inProgress") {
        Some(DownloadStatus::InProgress)
    } else if *label == String::from_str("paused") {
        Some(DownloadStatus::Paused)
    } else if *label == String::from_str("cancelled") {
        Some(DownloadStatus::Cancelled)
    } else if *label == String::from_str("completed") {
        Some(DownloadStatus::Completed)
    } else {
        None
    }
}

/// Parses one serialized record at position `i`.
fn parse_item_at(data: &str, i: usize) -> (r: Option<(DownloadItem, usize)>)
    requires
        i <= data@.len(),
    ensures
        match r {
            Some(p) => i < p.1 <= data@.len() && sp_item(data@.skip(i as int)) == Some(
                (p.0@, data@.skip(p.1 as int)),
            ),
            None => sp_item(data@.skip(i as int)) is None,
        },
{
    let j1 = match expect_tag(data, i, "{\"url\":\"") {
        None => {
            return None;
        },
        Some(j) => j,
    };
    let (url, j2) = match parse_string_at(data, j1) {
        None => {
            return None;
        },
        Some(p) => p,
    };
    let j3 = match expect_tag(data, j2, ",\"path\":\"") {
        None => {
            return None;
        },
        Some(j) => j,
    };
    let (path, j4) = match parse_string_at(data, j3) {
        None => {
            return None;
        },
        Some(p) => p,
    };
    let j5 = match expect_tag(data, j4, ",\"progress\":") {
        None => {
            return None;
        },
        Some(j) => j,
    };
    let (progress, j6) = match parse_number_at(data, j5) {
        None => {
            return None;
        },
        Some(p) => p,
    };
    let j7 = match expect_tag(data, j6, ",\"status\":\"") {
        None => {
            return None;
        },
        Some(j) => j,
    };
    let (label, j8) = match parse_string_at(data, j7) {
        None => {
            return None;
        },
        Some(p) => p,
    };
    let status = match status_of(&label) {
        None => {
            return None;
        },
        Some(st) => st,
    };
    let j9 = match expect_tag(data, j8, "}") {
        None => {
            return None;
        },
        Some(j) => j,
    };
    Some((DownloadItem { url, path, progress, status }, j9))
}

/// A parsed tail appended to the records parsed so far; the whole form is
/// accepted only when the array closes right after them.
spec fn sp_store_cont(done: Seq<ItemView>, r: Option<(Seq<ItemView>, Seq<char>)>) -> Option<
    Seq<ItemView>,
> {
    match r {
        Some(p) => if p.1 == seq![']'] {
            Some(done + p.0)
        } else {
            None
        },
        None => None,
    }
}

/// Parses the whole persisted form of a record table.
pub fn parse_items(data: &str) -> (r: Option<Vec<DownloadItem>>)
    ensures
        match r {
            Some(v) => sp_store(data@) == Some(crate::store::views_of(v@)),
            None => sp_store(data@) is None,
        },
{
    let n = data.unicode_len();
    proof {
        assert(data@.skip(0) =~= data@);
    }
    let i1 = match expect_tag(data, 0, "[") {
        None => {
            return None;
        },
        Some(j) => j,
    };
    proof {
        reveal_strlit("[");
    }
    if i1 < n && data.get_char(i1) == ']' {
        if i1 + 1 == n {
            let out: Vec<DownloadItem> = Vec::new();
            proof {
                assert(data@.skip(i1 as int) =~= seq![']']);
                assert(crate::store::views_of(out@) =~= Seq::<ItemView>::empty());
            }
            return Some(out);
        }
    }
    proof {
        assert(data@.skip(i1 as int) != seq![']']) by {
            if data@.skip(i1 as int) == seq![']'] {
                assert(data@.skip(i1 as int).len() == 1);
                assert(data@.skip(i1 as int)[0] == ']');
                assert(data@[i1 as int] == ']');
            }
        }
    }
    let mut out: Vec<DownloadItem> = Vec::new();
    let mut i = i1;
    loop
        invariant
            i1 <= i <= n,
            n == data@.len(),
            sp_store(data@) == sp_store_cont(
                crate::store::views_of(out@),
                sp_items(data@.skip(i as int)),
            ),
        decreases n - i,
    {
        let (item, j) = match parse_item_at(data, i) {
            None => {
                return None;
            },
            Some(p) => p,
        };
        proof {
            assert(crate::store::views_of(out@.push(item)) =~= crate::store::views_of(out@).push(
                item@,
            ));
        }
        if j < n && data.get_char(j) == ',' {
            proof {
                assert(data@.skip(j as int)[0] == data@[j as int]);
                assert(data@.skip(j as int).drop_first() =~= data@.skip(j + 1));
                lemma_store_cont_step(
                    crate::store::views_of(out@),
                    item@,
                    sp_items(data@.skip(j + 1)),
                );
            }
            out.push(item);
            i = j + 1;
        } else {
            proof {
                assert(data@.skip(j as int).len() == n - j);
                if j < n {
                    assert(data@.skip(j as int)[0] == data@[j as int]);
                }
                assert(!(data@.skip(j as int).len() > 0 && data@.skip(j as int)[0] == ','));
                assert(seq![item@] =~= Seq::<ItemView>::empty().push(item@));
            }
            out.push(item);
            if j < n && data.get_char(j) == ']' && j + 1 == n {
                proof {
                    assert(data@.skip(j as int) =~= seq![']']);
                    assert(crate::store::views_of(out@) =~= crate::store::views_of(
                        out@.subrange(0, out@.len() - 1),
                    ) + seq![item@]);
                }
                return Some(out);
            } else {
                proof {
                    assert(data@.skip(j as int) != seq![']']) by {
                        if data@.skip(j as int) == seq![']'] {
                            assert(data@.skip(j as int).len() == 1);
                            assert(data@.skip(j as int)[0] == ']');
                        }
                    }
                }
                return None;
            }
        }
    }
}

proof fn lemma_store_cont_step(
    done: Seq<ItemView>,
    v: ItemView,
    r: Option<(Seq<ItemView>, Seq<char>)>,
)
    ensures
        sp_store_cont(
            done,
            match r {
                Some(q) => Some((seq![v] + q.0, q.1)),
                None => None,
            },
        ) == sp_store_cont(done.push(v), r),
{
    match r {
        Some(q) => {
            assert(done + (seq![v] + q.0) =~= done.push(v) + q.0);
        },
        None => {},
    }
}

} // verus!

// ---------------------------------------------------------------------------
// Parsing inverts encoding.
// ---------------------------------------------------------------------------

verus! {

proof fn lemma_sp_tag_round(tag: Seq<char>, rest: Seq<char>)
    ensures
        sp_tag(tag + rest, tag) == Some(rest),
{
    let s = tag + rest;
    assert(s.take(tag.len() as int) =~= tag);
    assert(s.skip(tag.len() as int) =~= rest);
}

#[verifier::rlimit(80)]
#[verifier::spinoff_prover]
proof fn lemma_sp_string_round(t: Seq<char>, rest: Seq<char>)
    ensures
        sp_string(esc(t) + seq!['"'] + rest) == Some((t, rest)),
    decreases t.len(),
{
    let s = esc(t) + seq!['"'] + rest;
    if t.len() == 0 {
        assert(esc(t) =~= Seq::<char>::empty());
        assert(s =~= seq!['"'] + rest);
        assert(s[0] == '"');
        assert(s.drop_first() =~= rest);
    } else {
        let c = t[0];
        let t1 = t.drop_first();
        lemma_sp_string_round(t1, rest);
        let s1 = esc(t1) + seq!['"'] + rest;
        assert(esc(t) == esc_char(c) + esc(t1));
        assert(seq![c] + t1 =~= t);
        if c == '"' || c == '\\' || c == '\n' || c == '\r' || c == '\t' {
            assert(esc_char(c).len() == 2);
            assert(esc_char(c)[0] == '\\');
            assert(s[0] == '\\');
            assert(s[1] == esc_char(c)[1]);
            assert(unesc_char(esc_char(c)[1]) == Some(c));
            assert(s.skip(2) =~= s1);
        } else {
            assert(esc_char(c) =~= seq![c]);
            assert(s[0] == c);
            assert(s.drop_first() =~= s1);
        }
    }
}

proof fn lemma_dec_u64_digits(n: nat)
    ensures
        forall|k: int| 0 <= k < dec_u64(n).len() ==> is_digit(#[trigger] dec_u64(n)[k]),
        digits_val(dec_u64(n)) == n,
        dec_u64(n).len() >= 1,
    decreases n,
{
    if n < 10 {
        let ds = seq![digit_char(n)];
        assert(digits_val(Seq::<char>::empty()) == 0);
        assert(ds.drop_last() =~= Seq::<char>::empty());
        assert(ds.last() == digit_char(n));
        assert(digits_val(ds) == digit_val(digit_char(n)));
    } else {
        lemma_dec_u64_digits(n / 10);
        let ds = dec_u64(n / 10);
        let whole = ds.push(digit_char(n % 10));
        assert(whole.drop_last() =~= ds);
        assert(whole.last() == digit_char(n % 10));
        assert(digit_val(digit_char(n % 10)) == n % 10);
        assert(digits_val(whole) == (n / 10) * 10 + n % 10);
        assert((n / 10) * 10 + n % 10 == n) by {
            vstd::arithmetic::div_mod::lemma_fundamental_div_mod(n as int, 10);
        }
        assert forall|k: int| 0 <= k < whole.len() implies is_digit(#[trigger] whole[k]) by {
            if k < ds.len() {
                assert(whole[k] == ds[k]);
            } else {
                assert(whole[k] == digit_char(n % 10));
            }
        }
    }
}

proof fn lemma_sp_digits_concat(ds: Seq<char>, rest: Seq<char>)
    requires
        forall|k: int| 0 <= k < ds.len() ==> is_digit(#[trigger] ds[k]),
        rest.len() == 0 || !is_digit(rest[0]),
    ensures
        sp_digits(ds + rest) == (ds, rest),
    decreases ds.len(),
{
    let s = ds + rest;
    if ds.len() == 0 {
        assert(s =~= rest);
    } else {
        assert(s[0] == ds[0]);
        assert(is_digit(s[0]));
        assert(s.drop_first() =~= ds.drop_first() + rest);
        assert forall|k: int| 0 <= k < ds.drop_first().len() implies is_digit(
            #[trigger] ds.drop_first()[k],
        ) by {
            assert(ds.drop_first()[k] == ds[k + 1]);
        }
        lemma_sp_digits_concat(ds.drop_first(), rest);
        assert(seq![ds[0]] + ds.drop_first() =~= ds);
    }
}

proof fn lemma_sp_number_round(n: u64, rest: Seq<char>)
    requires
        rest.len() == 0 || !is_digit(rest[0]),
    ensures
        sp_number(dec_u64(n as nat) + rest) == Some((n, rest)),
{
    lemma_dec_u64_digits(n as nat);
    lemma_sp_digits_concat(dec_u64(n as nat), rest);
}

proof fn lemma_esc_raw_id(s: Seq<char>)
    requires
        forall|k: int|
            0 <= k < s.len() ==> !(#[trigger] s[k] == '"' || s[k] == '\\' || s[k] == '\n'
                || s[k] == '\r' || s[k] == '\t'),
    ensures
        esc(s) == s,
    decreases s.len(),
{
    if s.len() > 0 {
        assert forall|k: int|
            0 <= k < s.drop_first().len() implies !(#[trigger] s.drop_first()[k] == '"'
            || s.drop_first()[k] == '\\' || s.drop_first()[k] == '\n' || s.drop_first()[k] == '\r'
            || s.drop_first()[k] == '\t') by {
            assert(s.drop_first()[k] == s[k + 1]);
        }
        lemma_esc_raw_id(s.drop_first());
        assert(esc_char(s[0]) =~= seq![s[0]]);
        assert(seq![s[0]] + s.drop_first() =~= s);
    }
}

proof fn lemma_status_round(st: DownloadStatus)
    ensures
        esc(status_json(st)) == status_json(st),
        status_of_label(status_json(st)) == Some(st),
{
    reveal_strlit("unknown");
    reveal_strlit("pending");
    reveal_strlit("idle");
    reveal_strlit("inProgress");
    reveal_strlit("paused");
    reveal_strlit("cancelled");
    reveal_strlit("completed");
    let t = status_json(st);
    assert forall|k: int|
        0 <= k < t.len() implies !(#[trigger] t[k] == '"' || t[k] == '\\' || t[k] == '\n'
        || t[k] == '\r' || t[k] == '\t') by {}
    lemma_esc_raw_id(t);
    match st {
        DownloadStatus::Unknown => {},
        DownloadStatus::Pending => {
            assert("pending"@[0] != "unknown"@[0]);
        },
        DownloadStatus::Idle => {},
        DownloadStatus::InProgress => {},
        DownloadStatus::Paused => {},
        DownloadStatus::Cancelled => {},
        DownloadStatus::Completed => {
            assert("completed"@[1] != "cancelled"@[1]);
        },
    }
}

#[verifier::rlimit(80)]
#[verifier::spinoff_prover]
proof fn lemma_sp_item_round(v: ItemView, rest: Seq<char>)
    ensures
        sp_item(enc_item(v) + rest) == Some((v, rest)),
{
    lemma_status_round(v.status);
    let label = status_json(v.status);
    let r8 = "}"@ + rest;
    let r7 = esc(label) + seq!['"'] + r8;
    let r6 = ",\"status\":\""@ + r7;
    let r5 = dec_u64(v.progress as nat) + r6;
    let r4 = ",\"progress\":"@ + r5;
    let r3 = esc(v.path) + seq!['"'] + r4;
    let r2 = ",\"path\":\""@ + r3;
    let r1 = esc(v.url) + seq!['"'] + r2;
    let s0 = "{\"url\":\""@ + r1;
    assert(enc_item(v) + rest =~= s0);
    lemma_sp_tag_round("{\"url\":\""@, r1);
    lemma_sp_string_round(v.url, r2);
    lemma_sp_tag_round(",\"path\":\""@, r3);
    lemma_sp_string_round(v.path, r4);
    lemma_sp_tag_round(",\"progress\":"@, r5);
    reveal_strlit(",\"status\":\"");
    assert(r6[0] == ',');
    assert(!is_digit(r6[0]));
    lemma_sp_number_round(v.progress, r6);
    lemma_sp_tag_round(",\"status\":\""@, r7);
    lemma_sp_string_round(label, r8);
    lemma_sp_tag_round("}"@, rest);
    assert(sp_item(s0) == Some((v, rest)));
}

#[verifier::rlimit(80)]
#[verifier::spinoff_prover]
proof fn lemma_sp_items_round(m: Seq<ItemView>, rest: Seq<char>)
    requires
        m.len() > 0,
        rest.len() == 0 || rest[0] != ',',
    ensures
        sp_items(enc_items(m) + rest) == Some((m, rest)),
    decreases m.len(),
{
    if m.len() == 1 {
        lemma_sp_item_round(m[0], rest);
        assert(seq![m[0]] =~= m);
    } else {
        let tail = enc_items(m.drop_first()) + rest;
        lemma_sp_items_round(m.drop_first(), rest);
        lemma_sp_item_round(m[0], seq![','] + tail);
        assert(enc_items(m) + rest =~= enc_item(m[0]) + (seq![','] + tail));
        assert((seq![','] + tail)[0] == ',');
        assert((seq![','] + tail).drop_first() =~= tail);
        assert(seq![m[0]] + m.drop_first() =~= m);
    }
}

/// Round trip of the persisted form: parsing the serialized form of any
/// record table yields exactly that table, record for record and in order.
#[verifier::rlimit(80)]
#[verifier::spinoff_prover]
pub proof fn lemma_store_round_trip(m: Seq<ItemView>)
    ensures
        sp_store(enc_store(m)) == Some(m),
{
    reveal_strlit("[");
    reveal_strlit("{\"url\":\"");
    let body = enc_items(m) + seq![']'];
    assert(enc_store(m) =~= "["@ + body);
    lemma_sp_tag_round("["@, body);
    if m.len() == 0 {
        assert(body =~= seq![']']);
    } else {
        assert(enc_items(m).len() >= enc_item(m[0]).len());
        assert(enc_item(m[0]).len() >= "{\"url\":\""@.len());
        assert(body != seq![']']);
        lemma_sp_items_round(m, seq![']']);
    }
}

} // verus!
