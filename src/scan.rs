//! Finding secret values in file contents, with 1-based visual positions,
//! and the deterministic order of the findings.
use vstd::prelude::*;
use vstd::multiset::Multiset;
use vstd::utf8::encode_utf8;

use crate::config::{kind_rank, KV};
use crate::error::Error;
use crate::text::{lemma_seq_lt_asymmetric, lemma_seq_lt_irreflexive, lemma_seq_lt_total, lemma_seq_lt_transitive, seq_lt, str_lt};

verus! {

/// Which files a scan reads.
#[derive(Debug, Clone, Copy, Default)]
pub struct Opts {
    /// Also hidden files and files that ignore rules exclude.
    pub include_all: bool,
    /// Also files whose first kilobyte holds a NUL byte.
    pub include_binary: bool,
}

/// One occurrence of a secret value in a file.
#[derive(Debug, Clone)]
pub struct Match {
    pub path: String,
    /// 1-based line and visual column.
    pub position: Option<(usize, usize)>,
    /// Byte offset of the occurrence.
    pub offset: usize,
    pub query: KV,
}

/// Number of line feeds in `b`.
pub open spec fn newline_count(b: Seq<u8>) -> nat
    decreases b.len(),
{
    if b.len() == 0 {
        0
    } else {
        newline_count(b.drop_last()) + if b.last() == 10u8 { 1nat } else { 0nat }
    }
}

/// Index of the last line feed in `b`, or 0 when there is none.
pub open spec fn last_newline(b: Seq<u8>) -> int
    decreases b.len(),
{
    if b.len() == 0 {
        0
    } else if b.last() == 10u8 {
        b.len() - 1
    } else {
        last_newline(b.drop_last())
    }
}

/// Display width in columns of the text that the bytes decode to (invalid
/// sequences read as U+FFFD).
pub uninterp spec fn display_width(b: Seq<u8>) -> nat;

/// Relies on `String::from_utf8_lossy` and `unicode_width::UnicodeWidthStr::width`:
/// the width depends on the bytes alone, and an empty byte string has width 0.
#[verifier::external_body]
fn width_of(b: &[u8]) -> (r: usize)
    ensures
        r == display_width(b@),
        b@.len() == 0 ==> r == 0,
{
    unicode_width::UnicodeWidthStr::width(String::from_utf8_lossy(b).as_ref())
}

/// The 1-based (line, column) of byte `pos` in `text`: the line counts the
/// line feeds before `pos`; the column is one more than the display width of
/// the bytes from the last line feed before `pos` (or the start) up to `pos`.
/// `None` when `pos` is not inside `text`.
pub open spec fn visual_position(text: Seq<u8>, pos: int) -> Option<(usize, usize)> {
    if pos < 0 || pos >= text.len() {
        None
    } else {
        let before = text.subrange(0, pos);
        let w = display_width(text.subrange(last_newline(before), pos));
        if w < usize::MAX {
            Some(((newline_count(before) + 1) as usize, (w + 1) as usize))
        } else {
            None
        }
    }
}

/// The visual position of byte `byte_position` in `text`.
pub fn get_visual_position(text: &[u8], byte_position: usize) -> (r: Option<(usize, usize)>)
    ensures
        r == visual_position(text@, byte_position as int),
{
    if byte_position >= text.len() || text.len() == 0 {
        return None;
    }
    let mut lines: usize = 0;
    let mut last: usize = 0;
    let mut j: usize = 0;
    while j < byte_position
        invariant
            byte_position < text@.len(),
            j <= byte_position,
            lines as int == newline_count(text@.subrange(0, j as int)),
            last as int == last_newline(text@.subrange(0, j as int)),
            lines <= j,
            last <= j,
        decreases byte_position - j,
    {
        let ghost pre = text@.subrange(0, j as int);
        assert(text@.subrange(0, j + 1).drop_last() =~= pre);
        assert(text@.subrange(0, j + 1).last() == text@[j as int]);
        if text[j] == 10u8 {
            lines = lines + 1;
            last = j;
        }
        j = j + 1;
    }
    let w = width_of(&text[last..byte_position]);
    if w < usize::MAX {
        Some((lines + 1, w + 1))
    } else {
        None
    }
}

/// The views of a list of strings.
pub open spec fn views(v: Seq<String>) -> Seq<Seq<char>> {
    v.map_values(|s: String| s@)
}

/// The hits `(pattern index, byte offset)` of a search for `patterns` in
/// `haystack`, in the order the search reports them.
pub uninterp spec fn pattern_hits(patterns: Seq<Seq<char>>, haystack: Seq<char>) -> Seq<(usize, usize)>;

/// Each hit names a pattern whose bytes stand in the haystack's bytes at the
/// hit's offset, and hits come in order without overlapping.
pub open spec fn hits_valid(patterns: Seq<Seq<char>>, haystack: Seq<char>, hits: Seq<(usize, usize)>) -> bool {
    &&& forall|i: int|
        0 <= i < hits.len() ==> {
            let (p, s) = #[trigger] hits[i];
            &&& (p as int) < patterns.len()
            &&& s + encode_utf8(patterns[p as int]).len() <= encode_utf8(haystack).len()
            &&& encode_utf8(haystack).subrange(s as int, s + encode_utf8(patterns[p as int]).len())
                == encode_utf8(patterns[p as int])
        }
    &&& forall|i: int|
        0 <= i < hits.len() - 1 ==> hits[i].1 + encode_utf8(patterns[hits[i].0 as int]).len() <= #[trigger] hits[i
            + 1].1
}

/// Whether an automaton can be built for the patterns with the default settings.
pub uninterp spec fn automaton_builds(patterns: Seq<Seq<char>>) -> bool;

/// Relies on `aho_corasick::AhoCorasick::new` and `find_iter`: builds the
/// automaton (which may fail) and reports its non-overlapping matches in
/// order; each match's span holds its pattern's bytes.
#[verifier::external_body]
fn find_hits(patterns: &Vec<String>, haystack: &str) -> (r: Result<Vec<(usize, usize)>, String>)
    ensures
        r is Ok <==> automaton_builds(views(patterns@)),
        r is Ok ==> r->Ok_0@ == pattern_hits(views(patterns@), haystack@),
        r is Ok ==> hits_valid(views(patterns@), haystack@, r->Ok_0@),
{
    match aho_corasick::AhoCorasick::new(patterns) {
        Ok(finder) => Ok(finder.find_iter(haystack).map(|m| (m.pattern().as_usize(), m.start())).collect()),
        Err(e) => Err(e.to_string()),
    }
}

/// `m` reports hit `hit` of file `path` with text `content`, against `kvs`.
pub open spec fn is_hit_match(m: Match, path: Seq<char>, content: Seq<char>, kvs: Seq<KV>, hit: (usize, usize)) -> bool {
    &&& m.path@ == path
    &&& m.offset == hit.1
    &&& m.query == kvs[hit.0 as int]
    &&& m.position == visual_position(encode_utf8(content), hit.1 as int)
}

/// The values of `kvs`, in order.
pub open spec fn values_of(kvs: Seq<KV>) -> Seq<Seq<char>> {
    kvs.map_values(|kv: KV| kv.value@)
}

/// The matches that `hits` of a search through `content` make, in hit order.
pub fn matches_from_hits(path: &str, content: &str, kvs: &[KV], hits: &[(usize, usize)]) -> (r: Vec<Match>)
    requires
        forall|i: int| 0 <= i < hits@.len() ==> (#[trigger] hits@[i]).0 < kvs@.len(),
    ensures
        r@.len() == hits@.len(),
        forall|i: int| 0 <= i < r@.len() ==> is_hit_match(#[trigger] r@[i], path@, content@, kvs@, hits@[i]),
{
    let bytes = content.as_bytes();
    let mut out: Vec<Match> = Vec::new();
    let mut i: usize = 0;
    while i < hits.len()
        invariant
            bytes@ == encode_utf8(content@),
            forall|k: int| 0 <= k < hits@.len() ==> (#[trigger] hits@[k]).0 < kvs@.len(),
            i <= hits@.len(),
            out@.len() == i,
            forall|k: int| 0 <= k < i ==> is_hit_match(#[trigger] out@[k], path@, content@, kvs@, hits@[k]),
        decreases hits.len() - i,
    {
        let (p, s) = hits[i];
        let m = Match {
            path: path.to_owned(),
            position: get_visual_position(bytes, s),
            offset: s,
            query: kvs[p].duplicate(),
        };
        out.push(m);
        i = i + 1;
    }
    out
}

/// The matches of the values of `kvs` in one file's text, in the order the
/// search finds them.
pub fn scan_text(path: &str, content: &str, kvs: &[KV]) -> (r: Result<Vec<Match>, Error>)
    ensures
        r is Ok ==> r->Ok_0@.len() == pattern_hits(values_of(kvs@), content@).len() && forall|i: int|
            0 <= i < r->Ok_0@.len() ==> is_hit_match(
                #[trigger] r->Ok_0@[i],
                path@,
                content@,
                kvs@,
                pattern_hits(values_of(kvs@), content@)[i],
            ),
        r is Ok <==> automaton_builds(values_of(kvs@)),
        r is Err ==> r->Err_0 is Message,
{
    let mut patterns: Vec<String> = Vec::new();
    let mut i: usize = 0;
    while i < kvs.len()
        invariant
            i <= kvs@.len(),
            views(patterns@) =~= values_of(kvs@.subrange(0, i as int)),
        decreases kvs.len() - i,
    {
        let ghost before = patterns@;
        patterns.push(kvs[i].value.clone());
        assert(views(patterns@) =~= views(before).push(kvs@[i as int].value@));
        assert(kvs@.subrange(0, i + 1) =~= kvs@.subrange(0, i as int).push(kvs@[i as int]));
        i = i + 1;
    }
    assert(kvs@.subrange(0, kvs@.len() as int) =~= kvs@);
    match find_hits(&patterns, content) {
        Ok(hits) => {
            assert forall|k: int| 0 <= k < hits@.len() implies (#[trigger] hits@[k]).0 < kvs@.len() by {
                let (p, s) = hits@[k];
            }
            Ok(matches_from_hits(path, content, kvs, hits.as_slice()))
        },
        Err(e) => Err(Error::Message(e)),
    }
}

/// Whether the first 1024 bytes of a file hold a NUL byte, the mark of a
/// binary file.
pub fn is_binary(head: &[u8]) -> (r: bool)
    ensures
        r == exists|i: int| 0 <= i < head@.len() && i < 1024 && head@[i] == 0u8,
{
    let mut i: usize = 0;
    while i < head.len() && i < 1024
        invariant
            i <= head@.len(),
            i <= 1024,
            forall|k: int| 0 <= k < i ==> head@[k] != 0u8,
        decreases head.len() - i,
    {
        if head[i] == 0u8 {
            return true;
        }
        i = i + 1;
    }
    false
}

/// The rank of a value's provider kind in the finding order; values without
/// a provider come first.
pub open spec fn provider_rank(kv: KV) -> int {
    match kv.provider {
        Some(p) => kind_rank(p.kind) + 1,
        None => 0,
    }
}

/// Finding order: by provider kind, then key, then byte offset.
pub open spec fn match_lt(a: Match, b: Match) -> bool {
    if provider_rank(a.query) != provider_rank(b.query) {
        provider_rank(a.query) < provider_rank(b.query)
    } else if a.query.key@ != b.query.key@ {
        seq_lt(a.query.key@, b.query.key@)
    } else {
        a.offset < b.offset
    }
}

/// No later finding sorts before an earlier one.
pub open spec fn sorted_matches(s: Seq<Match>) -> bool {
    forall|i: int, j: int| 0 <= i < j < s.len() ==> !match_lt(s[j], s[i])
}

proof fn lemma_match_order(a: Match, b: Match, c: Match)
    ensures
        !match_lt(a, a),
        match_lt(a, b) ==> !match_lt(b, a),
        match_lt(a, b) && match_lt(b, c) ==> match_lt(a, c),
        !match_lt(b, a) && !match_lt(c, b) ==> !match_lt(c, a),
        !match_lt(a, b) ==> match_lt(b, a) || (provider_rank(a.query) == provider_rank(b.query)
            && a.query.key@ == b.query.key@ && a.offset == b.offset),
{
    lemma_seq_lt_irreflexive(a.query.key@);
    lemma_seq_lt_total(a.query.key@, b.query.key@);
    lemma_seq_lt_total(b.query.key@, c.query.key@);
    lemma_seq_lt_total(a.query.key@, c.query.key@);
    if seq_lt(a.query.key@, b.query.key@) {
        lemma_seq_lt_asymmetric(a.query.key@, b.query.key@);
    }
    if seq_lt(c.query.key@, b.query.key@) && seq_lt(b.query.key@, a.query.key@) {
        lemma_seq_lt_transitive(c.query.key@, b.query.key@, a.query.key@);
    }
    if seq_lt(c.query.key@, a.query.key@) && seq_lt(a.query.key@, b.query.key@) {
        lemma_seq_lt_transitive(c.query.key@, a.query.key@, b.query.key@);
    }
    if seq_lt(b.query.key@, c.query.key@) && seq_lt(c.query.key@, a.query.key@) {
        lemma_seq_lt_transitive(b.query.key@, c.query.key@, a.query.key@);
    }
    if seq_lt(c.query.key@, a.query.key@) {
        lemma_seq_lt_asymmetric(c.query.key@, a.query.key@);
    }
    if seq_lt(a.query.key@, b.query.key@) && seq_lt(b.query.key@, c.query.key@) {
        lemma_seq_lt_transitive(a.query.key@, b.query.key@, c.query.key@);
    }
    if seq_lt(b.query.key@, a.query.key@) {
        lemma_seq_lt_asymmetric(b.query.key@, a.query.key@);
    }
    if seq_lt(c.query.key@, b.query.key@) {
        lemma_seq_lt_asymmetric(c.query.key@, b.query.key@);
    }
}

fn provider_rank_exec(kv: &KV) -> (r: u8)
    ensures
        r as int == provider_rank(*kv),
{
    match &kv.provider {
        Some(p) => p.kind.rank() + 1,
        None => 0,
    }
}

/// Whether finding `a` sorts strictly before finding `b`.
pub fn match_lt_exec(a: &Match, b: &Match) -> (r: bool)
    ensures
        r == match_lt(*a, *b),
{
    let ra = provider_rank_exec(&a.query);
    let rb = provider_rank_exec(&b.query);
    if ra != rb {
        return ra < rb;
    }
    if a.query.key != b.query.key {
        return str_lt(a.query.key.as_str(), b.query.key.as_str());
    }
    a.offset < b.offset
}

/// The findings in finding order, as a permutation of `ms`.
pub fn sort_matches(ms: Vec<Match>) -> (r: Vec<Match>)
    ensures
        sorted_matches(r@),
        r@.to_multiset() == ms@.to_multiset(),
{
    let mut out: Vec<Match> = Vec::new();
    let mut rest = ms;
    let ghost orig = rest@;
    proof {
        broadcast use vstd::multiset::group_multiset_axioms;
        out@.to_multiset_ensures();
        assert(out@.to_multiset() =~= Multiset::<Match>::empty());
        assert(out@.to_multiset().add(rest@.to_multiset()) =~= orig.to_multiset());
    }
    while rest.len() > 0
        invariant
            sorted_matches(out@),
            out@.to_multiset().add(rest@.to_multiset()) == orig.to_multiset(),
        decreases rest.len(),
    {
        let ghost r0 = rest@;
        let m = rest.remove(0);
        proof {
            vstd::seq_lib::to_multiset_remove(r0, 0);
            assert(r0.contains(m)) by {
                assert(r0[0] == m);
            }
            vstd::seq_lib::to_multiset_contains(r0, m);
        }
        let mut k: usize = 0;
        while k < out.len() && !match_lt_exec(&m, &out[k])
            invariant
                k <= out@.len(),
                forall|j: int| 0 <= j < k ==> !match_lt(m, #[trigger] out@[j]),
            decreases out.len() - k,
        {
            k = k + 1;
        }
        let pos = k;
        let ghost before = out@;
        out.insert(pos, m);
        proof {
            let s = out@;
            assert forall|i: int, j: int| 0 <= i < j < s.len() implies !match_lt(s[j], s[i]) by {
                if i < pos && j == pos {
                } else if i < pos && j > pos {
                    assert(s[j] == before[j - 1]);
                } else if i == pos && j > pos {
                    assert(s[j] == before[j - 1]);
                    assert(match_lt(m, before[pos as int]));
                    lemma_match_order(before[j - 1], m, before[pos as int]);
                } else if i > pos {
                    assert(s[i] == before[i - 1]);
                    assert(s[j] == before[j - 1]);
                }
            }
            vstd::seq_lib::to_multiset_insert(before, pos as int, m);
            broadcast use vstd::multiset::group_multiset_axioms;
            assert(out@.to_multiset().add(rest@.to_multiset()) =~= before.to_multiset().add(r0.to_multiset()));
        }
    }
    proof {
        broadcast use vstd::multiset::group_multiset_axioms;
        rest@.to_multiset_ensures();
        assert(rest@.to_multiset() =~= Multiset::<Match>::empty());
        assert(out@.to_multiset().add(rest@.to_multiset()) =~= out@.to_multiset());
    }
    out
}

} // verus!
