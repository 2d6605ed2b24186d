//! Replacing live secret values in text.
use vstd::prelude::*;
use vstd::utf8::encode_utf8;

use crate::config::KV;
use crate::paths::first_index;
use crate::text::{chars_of, push_char, contains, contains_exec, occurs_at, replace_all, replace_all_exec, string_of};

verus! {

/// The text that stands in for `kv`'s value.
pub open spec fn redaction_of(kv: KV) -> Seq<char> {
    match kv.meta {
        Some(m) => match m.redact_with {
            Some(r) => r@,
            None => "[REDACTED]"@,
        },
        None => "[REDACTED]"@,
    }
}

/// Some value of `kvs` occurs in `msg`.
pub open spec fn any_value_in(msg: Seq<char>, kvs: Seq<KV>) -> bool {
    exists|i: int| 0 <= i < kvs.len() && contains(msg, #[trigger] kvs[i].value@)
}

/// A value is long enough to be replaced: two bytes or more in UTF-8.
pub open spec fn replaceable(kv: KV) -> bool {
    encode_utf8(kv.value@).len() >= 2
}

/// `msg` after replacing, for each of `kvs` in turn whose value is
/// replaceable, every occurrence of the value by its redaction.
pub open spec fn replace_values(msg: Seq<char>, kvs: Seq<KV>) -> Seq<char>
    decreases kvs.len(),
{
    if kvs.len() == 0 {
        msg
    } else {
        let m = replace_values(msg, kvs.drop_last());
        if replaceable(kvs.last()) {
            replace_all(m, kvs.last().value@, redaction_of(kvs.last()))
        } else {
            m
        }
    }
}

/// The redacted form of one line.
pub open spec fn redacted(msg: Seq<char>, kvs: Seq<KV>) -> Seq<char> {
    if any_value_in(msg, kvs) {
        replace_values(msg, kvs)
    } else {
        msg
    }
}

/// A line without its trailing carriage return, if any.
pub open spec fn strip_cr(line: Seq<char>) -> Seq<char> {
    if line.len() > 0 && line.last() == '\r' {
        line.drop_last()
    } else {
        line
    }
}

#[verifier::opaque]
/// The redacted text of a stream: each line (ended by a line feed, or the
/// non-empty rest) redacted, without its line ending, and followed by a line feed.
pub open spec fn redacted_stream(s: Seq<char>, kvs: Seq<KV>) -> Seq<char>
    decreases s.len(),
{
    match first_index(s, '\n') {
        Some(i) => if 0 <= i < s.len() {
            redacted(strip_cr(s.subrange(0, i)), kvs) + seq!['\n'] + redacted_stream(s.subrange(i + 1, s.len() as int), kvs)
        } else {
            Seq::empty()
        },
        None => if s.len() == 0 {
            Seq::empty()
        } else {
            redacted(s, kvs) + seq!['\n']
        },
    }
}

proof fn lemma_first_index_at(s: Seq<char>, c: char, i: int)
    requires
        0 <= i < s.len(),
        s[i] == c,
        forall|j: int| 0 <= j < i ==> s[j] != c,
    ensures
        first_index(s, c) == Some(i),
{
    let k = choose|k: int| 0 <= k < s.len() && s[k] == c && forall|j: int| 0 <= j < k ==> s[j] != c;
    assert(0 <= k < s.len() && s[k] == c && forall|j: int| 0 <= j < k ==> s[j] != c);
    if k < i {
    } else if k > i {
    }
}

proof fn lemma_stream_step(s: Seq<char>, kvs: Seq<KV>, p: int, j: int, end: int)
    requires
        0 <= p < s.len(),
        p <= j <= s.len(),
        forall|k: int| p <= k < j ==> s[k] != '\n',
        j < s.len() ==> s[j] == '\n',
        j < s.len() && j > p && s[j - 1] == '\r' ==> end == j - 1,
        !(j < s.len() && j > p && s[j - 1] == '\r') ==> end == j,
    ensures
        redacted_stream(s.subrange(p, s.len() as int), kvs) == redacted(s.subrange(p, end), kvs) + seq!['\n']
            + redacted_stream(s.subrange(if j < s.len() { j + 1 } else { j }, s.len() as int), kvs),
{
    reveal(redacted_stream);
    let rest = s.subrange(p, s.len() as int);
    if j < s.len() {
        lemma_first_index_at(rest, '\n', j - p);
        assert(rest.subrange(0, j - p) =~= s.subrange(p, j));
        assert(strip_cr(rest.subrange(0, j - p)) =~= s.subrange(p, end));
        assert(rest.subrange(j - p + 1, rest.len() as int) =~= s.subrange(j + 1, s.len() as int));
    } else {
        assert(rest =~= s.subrange(p, end));
        assert(first_index(rest, '\n') is None);
        assert(s.subrange(j, s.len() as int) =~= Seq::<char>::empty());
        assert(first_index(Seq::<char>::empty(), '\n') is None);
    }
}

/// Replaces secret values in text.
pub struct Redactor {}

impl Redactor {
    pub fn new() -> (r: Redactor) {
        Redactor {  }
    }

    /// The text standing in for `kv`'s value.
    fn redaction(kv: &KV) -> (r: String)
        ensures
            r@ == redaction_of(*kv),
    {
        match &kv.meta {
            Some(m) => match &m.redact_with {
                Some(r) => r.clone(),
                None => "[REDACTED]".to_owned(),
            },
            None => "[REDACTED]".to_owned(),
        }
    }

    /// `message` with every occurrence of a value of `kvs` (two bytes or
    /// longer) replaced by that value's redaction, values taken in order;
    /// `message` unchanged when no value of `kvs` occurs in it.
    pub fn redact_string(&self, message: &str, kvs: &[KV]) -> (r: String)
        ensures
            r@ == redacted(message@, kvs@),
    {
        if !self.has_match(message, kvs) {
            return message.to_owned();
        }
        let mut cur = chars_of(message);
        let mut i: usize = 0;
        while i < kvs.len()
            invariant
                i <= kvs@.len(),
                cur@ == replace_values(message@, kvs@.subrange(0, i as int)),
            decreases kvs.len() - i,
        {
            let kv = &kvs[i];
            assert(kvs@.subrange(0, i + 1).drop_last() =~= kvs@.subrange(0, i as int));
            assert(kvs@.subrange(0, i + 1).last() == kvs@[i as int]);
            let long = kv.value.as_str().as_bytes().len() >= 2;
            assert(long == replaceable(kvs@[i as int]));
            if long {
                let p = chars_of(kv.value.as_str());
                if p.len() == 0 {
                    assert(encode_utf8(p@) =~= Seq::<u8>::empty());
                }
                let rep = Redactor::redaction(kv);
                let rv = chars_of(rep.as_str());
                cur = replace_all_exec(&cur, &p, &rv);
            }
            i = i + 1;
        }
        assert(kvs@.subrange(0, kvs@.len() as int) =~= kvs@);
        string_of(cur.as_slice())
    }

    /// Redacts a stream line by line: every line, without its ending, is
    /// redacted and written back followed by a line feed.
    pub fn redact(&self, input: &str, kvs: &[KV]) -> (r: String)
        ensures
            r@ == redacted_stream(input@, kvs@),
    {
        let v = chars_of(input);
        let mut out = String::new();
        let mut p: usize = 0;
        assert(v@.subrange(0, v@.len() as int) =~= v@);
        assert(out@ + redacted_stream(input@, kvs@) =~= redacted_stream(input@, kvs@));
        while p < v.len()
            invariant
                v@ == input@,
                p <= v@.len(),
                out@ + redacted_stream(v@.subrange(p as int, v@.len() as int), kvs@) == redacted_stream(input@, kvs@),
            decreases v.len() - p,
        {
            let mut j: usize = p;
            while j < v.len() && v[j] != '\n'
                invariant
                    p <= j <= v@.len(),
                    forall|k: int| p <= k < j ==> v@[k] != '\n',
                decreases v.len() - j,
            {
                j = j + 1;
            }
            let mut end = j;
            if j < v.len() && end > p && v[end - 1] == '\r' {
                end = end - 1;
            }
            let line = string_of(&v.as_slice()[p..end]);
            let red = self.redact_string(line.as_str(), kvs);
            let ghost out0 = out@;
            out.append(red.as_str());
            push_char(&mut out, '\n');
            proof {
                lemma_stream_step(v@, kvs@, p as int, j as int, end as int);
                let next = if j < v@.len() { j + 1 } else { j as int };
                assert(out@ + redacted_stream(v@.subrange(next, v@.len() as int), kvs@) =~= out0 + (red@ + seq!['\n']
                    + redacted_stream(v@.subrange(next, v@.len() as int), kvs@)));
            }
            p = if j < v.len() { j + 1 } else { j };
        }
        proof {
            reveal(redacted_stream);
            assert(v@.subrange(p as int, v@.len() as int) =~= Seq::<char>::empty());
            assert(first_index(Seq::<char>::empty(), '\n') is None);
            assert(out@ + Seq::<char>::empty() =~= out@);
        }
        out
    }

    /// Whether some value of `kvs` occurs in `message`.
    pub fn has_match(&self, message: &str, kvs: &[KV]) -> (r: bool)
        ensures
            r == any_value_in(message@, kvs@),
    {
        let m = chars_of(message);
        let mut i: usize = 0;
        while i < kvs.len()
            invariant
                m@ == message@,
                i <= kvs@.len(),
                forall|j: int| 0 <= j < i ==> !contains(message@, #[trigger] kvs@[j].value@),
            decreases kvs.len() - i,
        {
            let p = chars_of(kvs[i].value.as_str());
            if contains_exec(&m, &p) {
                return true;
            }
            i = i + 1;
        }
        false
    }
}

impl Default for Redactor {
    fn default() -> (r: Redactor) {
        Redactor::new()
    }
}

proof fn lemma_replace_shows_redaction(s: Seq<char>, p: Seq<char>, r: Seq<char>)
    requires
        p.len() > 0,
        contains(s, p),
    ensures
        contains(replace_all(s, p, r), r),
    decreases s.len(),
{
    let i = choose|i: int| occurs_at(s, p, i);
    if s.subrange(0, p.len() as int) == p {
        let out = replace_all(s, p, r);
        assert(out.subrange(0, r.len() as int) =~= r);
        assert(occurs_at(out, r, 0));
    } else {
        assert(i != 0);
        let t = s.drop_first();
        assert(t.subrange(i - 1, i - 1 + p.len()) =~= s.subrange(i, i + p.len()));
        assert(occurs_at(t, p, i - 1));
        lemma_replace_shows_redaction(t, p, r);
        let rest = replace_all(t, p, r);
        let k = choose|k: int| occurs_at(rest, r, k);
        let out = replace_all(s, p, r);
        assert(out == seq![s[0]] + rest);
        assert(out.subrange(k + 1, k + 1 + r.len()) =~= rest.subrange(k, k + r.len()));
        assert(occurs_at(out, r, k + 1));
    }
}

/// No character occurs in both sequences.
pub open spec fn disjoint_chars(a: Seq<char>, b: Seq<char>) -> bool {
    forall|i: int, j: int| 0 <= i < a.len() && 0 <= j < b.len() ==> a[i] != b[j]
}

proof fn lemma_prefix_without_redaction(t: Seq<char>, p: Seq<char>, r: Seq<char>, m: int)
    requires
        p.len() > 0,
        r.len() > 0,
        0 <= m <= replace_all(t, p, r).len(),
        disjoint_chars(replace_all(t, p, r).subrange(0, m), r),
    ensures
        m <= t.len(),
        replace_all(t, p, r).subrange(0, m) == t.subrange(0, m),
    decreases t.len(),
{
    let out = replace_all(t, p, r);
    if m == 0 {
        assert(out.subrange(0, 0) =~= t.subrange(0, 0));
    } else if t.len() < p.len() {
    } else if t.subrange(0, p.len() as int) == p {
        assert(out[0] == r[0]);
        assert(out.subrange(0, m)[0] == out[0]);
    } else {
        let u = t.drop_first();
        assert(out.len() == 1 + replace_all(u, p, r).len());
        let rest = replace_all(u, p, r);
        assert(out == seq![t[0]] + rest);
        assert(rest.subrange(0, m - 1) =~= out.subrange(0, m).drop_first());
        assert(disjoint_chars(rest.subrange(0, m - 1), r)) by {
            assert forall|i: int, j: int| 0 <= i < m - 1 && 0 <= j < r.len() implies #[trigger] rest.subrange(0, m - 1)[i] != #[trigger] r[j] by {
                assert(rest.subrange(0, m - 1)[i] == out.subrange(0, m)[i + 1]);
            }
        }
        lemma_prefix_without_redaction(u, p, r, m - 1);
        assert(out.subrange(0, m) =~= seq![t[0]] + rest.subrange(0, m - 1));
        assert(t.subrange(0, m) =~= seq![t[0]] + u.subrange(0, m - 1));
    }
}

proof fn lemma_replace_leaves_none(s: Seq<char>, p: Seq<char>, r: Seq<char>)
    requires
        p.len() > 0,
        r.len() > 0,
        disjoint_chars(p, r),
    ensures
        !contains(replace_all(s, p, r), p),
    decreases s.len(),
{
    let out = replace_all(s, p, r);
    if s.len() < p.len() {
        assert forall|i: int| !occurs_at(out, p, i) by {}
    } else if s.subrange(0, p.len() as int) == p {
        let rest = replace_all(s.subrange(p.len() as int, s.len() as int), p, r);
        lemma_replace_leaves_none(s.subrange(p.len() as int, s.len() as int), p, r);
        assert(out == r + rest);
        assert forall|i: int| !occurs_at(out, p, i) by {
            if occurs_at(out, p, i) {
                if i < r.len() {
                    assert(out.subrange(i, i + p.len())[0] == out[i]);
                    assert(out[i] == r[i]);
                } else {
                    assert(rest.subrange(i - r.len(), i - r.len() + p.len()) =~= out.subrange(i, i + p.len()));
                    assert(occurs_at(rest, p, i - r.len()));
                }
            }
        }
    } else {
        let u = s.drop_first();
        let rest = replace_all(u, p, r);
        lemma_replace_leaves_none(u, p, r);
        assert(out == seq![s[0]] + rest);
        assert forall|i: int| !occurs_at(out, p, i) by {
            if occurs_at(out, p, i) {
                if i == 0 {
                    let pre = out.subrange(0, p.len() as int);
                    assert(pre == p);
                    assert(disjoint_chars(pre, r));
                    lemma_prefix_without_redaction(s, p, r, p.len() as int);
                } else {
                    assert(rest.subrange(i - 1, i - 1 + p.len()) =~= out.subrange(i, i + p.len()));
                    assert(occurs_at(rest, p, i - 1));
                }
            }
        }
    }
}

proof fn lemma_no_occurrence_in_suffix(s: Seq<char>, v: Seq<char>, k: int)
    requires
        0 <= k <= s.len(),
        !contains(s, v),
    ensures
        !contains(s.subrange(k, s.len() as int), v),
{
    let t = s.subrange(k, s.len() as int);
    assert forall|i: int| !occurs_at(t, v, i) by {
        if occurs_at(t, v, i) {
            assert(s.subrange(k + i, k + i + v.len()) =~= t.subrange(i, i + v.len()));
            assert(occurs_at(s, v, k + i));
        }
    }
}

proof fn lemma_replace_keeps_absent(s: Seq<char>, p: Seq<char>, r: Seq<char>, v: Seq<char>)
    requires
        p.len() > 0,
        r.len() > 0,
        v.len() > 0,
        disjoint_chars(v, r),
        !contains(s, v),
    ensures
        !contains(replace_all(s, p, r), v),
    decreases s.len(),
{
    let out = replace_all(s, p, r);
    if s.len() < p.len() {
    } else if s.subrange(0, p.len() as int) == p {
        let tail = s.subrange(p.len() as int, s.len() as int);
        lemma_no_occurrence_in_suffix(s, v, p.len() as int);
        lemma_replace_keeps_absent(tail, p, r, v);
        let rest = replace_all(tail, p, r);
        assert(out == r + rest);
        assert forall|i: int| !occurs_at(out, v, i) by {
            if occurs_at(out, v, i) {
                if i < r.len() {
                    assert(out.subrange(i, i + v.len())[0] == out[i]);
                    assert(out[i] == r[i]);
                    assert(v[0] == r[i]);
                } else {
                    assert(rest.subrange(i - r.len(), i - r.len() + v.len()) =~= out.subrange(i, i + v.len()));
                    assert(occurs_at(rest, v, i - r.len()));
                }
            }
        }
    } else {
        let u = s.drop_first();
        lemma_no_occurrence_in_suffix(s, v, 1);
        assert(u =~= s.subrange(1, s.len() as int));
        lemma_replace_keeps_absent(u, p, r, v);
        let rest = replace_all(u, p, r);
        assert(out == seq![s[0]] + rest);
        assert forall|i: int| !occurs_at(out, v, i) by {
            if occurs_at(out, v, i) {
                if i == 0 {
                    let pre = out.subrange(0, v.len() as int);
                    assert(pre == v);
                    assert(disjoint_chars(pre, r));
                    lemma_prefix_without_redaction(s, p, r, v.len() as int);
                    assert(occurs_at(s, v, 0));
                } else {
                    assert(rest.subrange(i - 1, i - 1 + v.len()) =~= out.subrange(i, i + v.len()));
                    assert(occurs_at(rest, v, i - 1));
                }
            }
        }
    }
}

proof fn lemma_replaceable_nonempty(kv: KV)
    requires
        replaceable(kv),
    ensures
        kv.value@.len() > 0,
{
    if kv.value@.len() == 0 {
        assert(encode_utf8(kv.value@) =~= Seq::<u8>::empty());
    }
}

/// Redaction leaves no value of several behind: where the redaction of
/// every replaceable value is non-empty and shares no character with any
/// replaceable value, no replaceable value occurs in the redacted line.
pub proof fn lemma_redact_all(msg: Seq<char>, kvs: Seq<KV>)
    requires
        forall|i: int| 0 <= i < kvs.len() && replaceable(#[trigger] kvs[i]) ==> redaction_of(kvs[i]).len() > 0,
        forall|i: int, j: int|
            0 <= i < kvs.len() && 0 <= j < kvs.len() && replaceable(#[trigger] kvs[i]) && replaceable(#[trigger] kvs[j])
                ==> disjoint_chars(kvs[j].value@, redaction_of(kvs[i])),
    ensures
        forall|j: int| 0 <= j < kvs.len() && replaceable(#[trigger] kvs[j]) ==> !contains(redacted(msg, kvs), kvs[j].value@),
    decreases kvs.len(),
{
    if any_value_in(msg, kvs) {
        lemma_replace_values_clears(msg, kvs);
    } else {
        assert forall|j: int| 0 <= j < kvs.len() && replaceable(#[trigger] kvs[j]) implies !contains(
            redacted(msg, kvs),
            kvs[j].value@,
        ) by {
            if contains(msg, kvs[j].value@) {
                assert(any_value_in(msg, kvs));
            }
        }
    }
}

proof fn lemma_replace_values_clears(msg: Seq<char>, kvs: Seq<KV>)
    requires
        forall|i: int| 0 <= i < kvs.len() && replaceable(#[trigger] kvs[i]) ==> redaction_of(kvs[i]).len() > 0,
        forall|i: int, j: int|
            0 <= i < kvs.len() && 0 <= j < kvs.len() && replaceable(#[trigger] kvs[i]) && replaceable(#[trigger] kvs[j])
                ==> disjoint_chars(kvs[j].value@, redaction_of(kvs[i])),
    ensures
        forall|j: int| 0 <= j < kvs.len() && replaceable(#[trigger] kvs[j]) ==> !contains(replace_values(msg, kvs), kvs[j].value@),
    decreases kvs.len(),
{
    if kvs.len() > 0 {
        let init = kvs.drop_last();
        let n = kvs.len() - 1;
        assert forall|i: int| 0 <= i < init.len() && replaceable(#[trigger] init[i]) implies redaction_of(init[i]).len() > 0 by {
            assert(init[i] == kvs[i]);
        }
        assert forall|i: int, j: int|
            0 <= i < init.len() && 0 <= j < init.len() && replaceable(#[trigger] init[i]) && replaceable(#[trigger] init[j])
                implies disjoint_chars(init[j].value@, redaction_of(init[i])) by {
            assert(init[i] == kvs[i]);
            assert(init[j] == kvs[j]);
        }
        lemma_replace_values_clears(msg, init);
        let m = replace_values(msg, init);
        let last = kvs.last();
        assert(last == kvs[n]);
        assert forall|j: int| 0 <= j < kvs.len() && replaceable(#[trigger] kvs[j]) implies !contains(
            replace_values(msg, kvs),
            kvs[j].value@,
        ) by {
            lemma_replaceable_nonempty(kvs[j]);
            if j < n {
                assert(init[j] == kvs[j]);
                if replaceable(last) {
                    lemma_replaceable_nonempty(last);
                    lemma_replace_keeps_absent(m, last.value@, redaction_of(last), kvs[j].value@);
                }
            } else {
                lemma_replace_leaves_none(m, last.value@, redaction_of(last));
            }
        }
    }
}

/// Redacting one line: a line that holds no value passes through unchanged;
/// a line that holds the value of a single replaceable `kv` comes out with
/// the redaction in it, and with no occurrence of the value left when the
/// redaction is non-empty and shares no character with the value.
pub proof fn lemma_redact_line(msg: Seq<char>, kvs: Seq<KV>, kv: KV)
    ensures
        !any_value_in(msg, kvs) ==> redacted(msg, kvs) == msg,
        replaceable(kv) && contains(msg, kv.value@) ==> contains(redacted(msg, seq![kv]), redaction_of(kv)),
        replaceable(kv) && redaction_of(kv).len() > 0 && disjoint_chars(kv.value@, redaction_of(kv))
            ==> !contains(redacted(msg, seq![kv]), kv.value@),
{
    let one = seq![kv];
    assert(one.drop_last() =~= Seq::<KV>::empty());
    assert(one.last() == kv);
    if replaceable(kv) {
        if kv.value@.len() == 0 {
            assert(encode_utf8(kv.value@) =~= Seq::<u8>::empty());
        }
        assert(replace_values(msg, one.drop_last()) == msg);
        assert(replace_values(msg, one) == replace_all(msg, kv.value@, redaction_of(kv)));
        if contains(msg, kv.value@) {
            assert(one[0] == kv);
            assert(any_value_in(msg, one));
            lemma_replace_shows_redaction(msg, kv.value@, redaction_of(kv));
        }
        if redaction_of(kv).len() > 0 && disjoint_chars(kv.value@, redaction_of(kv)) {
            lemma_replace_leaves_none(msg, kv.value@, redaction_of(kv));
            if !any_value_in(msg, one) {
                assert(!contains(msg, kv.value@)) by {
                    if contains(msg, kv.value@) {
                        assert(one[0] == kv);
                    }
                }
            }
        }
    }
}

} // verus!
