//! Header codec: a header block is a piece of text holding `Key:Value`
//! entries separated by the two-character line terminator `\r\n`.  An entry
//! splits on its first colon; an entry with no colon yields the whole entry
//! as the key and an empty value.  Empty entries are dropped.  Duplicate keys
//! are permitted; lookups use "any entry matches" semantics, with values
//! trimmed of surrounding whitespace before comparison.

use vstd::prelude::*;
use vstd::string::StrSliceExecFns;
use vstd::string::StringExecFns;

verus! {

/// The two-character line terminator that separates header entries.
pub open spec fn crlf_pat() -> Seq<char> {
    seq!['\r', '\n']
}

/// The single-character separator between a key and a value.
pub open spec fn colon_pat() -> Seq<char> {
    seq![':']
}

/// `pat` occurs in `s` starting at position `i`.
pub open spec fn match_at(s: Seq<char>, pat: Seq<char>, i: int) -> bool {
    0 <= i && i + pat.len() <= s.len() && s.subrange(i, i + pat.len() as int) == pat
}

/// Position of the leftmost occurrence of `pat` in `s`, or -1 if none.
pub open spec fn first_match(s: Seq<char>, pat: Seq<char>) -> int
    decreases s.len(),
{
    if pat.len() == 0 {
        0
    } else if s.len() < pat.len() {
        -1
    } else if s.subrange(0, pat.len() as int) == pat {
        0
    } else {
        let r = first_match(s.subrange(1, s.len() as int), pat);
        if r < 0 {
            -1
        } else {
            r + 1
        }
    }
}

/// `first_match` finds exactly the leftmost occurrence of the pattern:
/// -1 means no occurrence at all, and a non-negative result is an
/// occurrence with none before it.
pub proof fn lemma_first_match(s: Seq<char>, pat: Seq<char>)
    requires
        pat.len() >= 1,
    ensures
        first_match(s, pat) >= -1,
        first_match(s, pat) == -1 ==> forall|i: int| !match_at(s, pat, i),
        first_match(s, pat) >= 0 ==> match_at(s, pat, first_match(s, pat)),
        first_match(s, pat) >= 0 ==> forall|i: int|
            0 <= i < first_match(s, pat) ==> !match_at(s, pat, i),
    decreases s.len(),
{
    if s.len() < pat.len() {
        assert forall|i: int| !match_at(s, pat, i) by {
            if 0 <= i {
                assert(i + pat.len() > s.len());
            }
        }
    } else if s.subrange(0, pat.len() as int) == pat {
        assert(match_at(s, pat, 0));
    } else {
        let t = s.subrange(1, s.len() as int);
        lemma_first_match(t, pat);
        assert forall|i: int| 0 <= i implies match_at(s, pat, i + 1) == match_at(
            t,
            pat,
            i,
        ) by {
            if i + 1 + pat.len() <= s.len() {
                assert(t.subrange(i, i + pat.len() as int) =~= s.subrange(
                    i + 1,
                    i + 1 + pat.len() as int,
                ));
            }
        }
        assert(!match_at(s, pat, 0));
        let r = first_match(t, pat);
        if r < 0 {
            assert forall|i: int| !match_at(s, pat, i) by {
                if i >= 1 {
                    assert(!match_at(t, pat, i - 1));
                }
            }
        } else {
            assert(match_at(t, pat, r));
            assert(match_at(s, pat, r + 1));
            assert forall|i: int| 0 <= i < r + 1 implies !match_at(s, pat, i) by {
                if i >= 1 {
                    assert(!match_at(t, pat, i - 1));
                }
            }
        }
    }
}

/// If `pat` occurs at `i` and nowhere earlier, then `i` is the first match.
pub proof fn lemma_first_match_is(s: Seq<char>, pat: Seq<char>, i: int)
    requires
        pat.len() >= 1,
        match_at(s, pat, i),
        forall|j: int| 0 <= j < i ==> !match_at(s, pat, j),
    ensures
        first_match(s, pat) == i,
{
    lemma_first_match(s, pat);
}

/// If `pat` occurs nowhere in `s`, `first_match` is -1.
pub proof fn lemma_first_match_none(s: Seq<char>, pat: Seq<char>)
    requires
        pat.len() >= 1,
        forall|j: int| !match_at(s, pat, j),
    ensures
        first_match(s, pat) == -1,
{
    lemma_first_match(s, pat);
}

/// The entries of a header block: the block split on each `\r\n`.
pub open spec fn split_crlf(s: Seq<char>) -> Seq<Seq<char>>
    decreases s.len(),
{
    let i = first_match(s, crlf_pat());
    if i < 0 || i + 2 > s.len() {
        seq![s]
    } else {
        seq![s.subrange(0, i)] + split_crlf(s.subrange(i + 2, s.len() as int))
    }
}

/// An entry split on its first colon: (key, rest-of-entry), or
/// (whole entry, empty) when it has no colon.
pub open spec fn split_colon(l: Seq<char>) -> (Seq<char>, Seq<char>) {
    let i = first_match(l, colon_pat());
    if 0 <= i < l.len() {
        (l.subrange(0, i), l.subrange(i + 1, l.len() as int))
    } else {
        (l, Seq::empty())
    }
}

/// The (key, value) pairs of a sequence of entries: empty entries are
/// dropped, the others split on their first colon.
pub open spec fn pairs_of_entries(ls: Seq<Seq<char>>) -> Seq<(Seq<char>, Seq<char>)>
    decreases ls.len(),
{
    if ls.len() == 0 {
        Seq::empty()
    } else if ls[0].len() == 0 {
        pairs_of_entries(ls.subrange(1, ls.len() as int))
    } else {
        seq![split_colon(ls[0])] + pairs_of_entries(ls.subrange(1, ls.len() as int))
    }
}

/// What parsing a header block yields.
pub open spec fn parse_headers_of(s: Seq<char>) -> Seq<(Seq<char>, Seq<char>)> {
    pairs_of_entries(split_crlf(s))
}

/// A whitespace character, for the purpose of trimming header values.
pub open spec fn is_space_char(c: char) -> bool {
    c == ' ' || c == '\t' || c == '\r' || c == '\n'
}

/// `s` with its leading whitespace removed.
pub open spec fn trim_start_of(s: Seq<char>) -> Seq<char>
    decreases s.len(),
{
    if s.len() > 0 && is_space_char(s[0]) {
        trim_start_of(s.subrange(1, s.len() as int))
    } else {
        s
    }
}

/// `s` with its trailing whitespace removed.
pub open spec fn trim_end_of(s: Seq<char>) -> Seq<char>
    decreases s.len(),
{
    if s.len() > 0 && is_space_char(s[s.len() - 1]) {
        trim_end_of(s.subrange(0, s.len() - 1))
    } else {
        s
    }
}

/// `s` with surrounding whitespace removed.
pub open spec fn trim_of(s: Seq<char>) -> Seq<char> {
    trim_end_of(trim_start_of(s))
}

/// Some entry of `pairs` has key exactly `key` and a value that trims to
/// `val`.
pub open spec fn has_entry(
    pairs: Seq<(Seq<char>, Seq<char>)>,
    key: Seq<char>,
    val: Seq<char>,
) -> bool {
    exists|i: int| 0 <= i < pairs.len() && pairs[i].0 == key && trim_of(pairs[i].1) == val
}

/// No `\r\n` occurs anywhere in `s`.
pub open spec fn crlf_free(s: Seq<char>) -> bool {
    forall|p: int| 0 <= p < s.len() - 1 ==> !(#[trigger] s[p] == '\r' && s[p + 1] == '\n')
}

/// No colon occurs anywhere in `s`.
pub open spec fn colon_free(s: Seq<char>) -> bool {
    forall|p: int| 0 <= p < s.len() ==> s[p] != ':'
}

/// A (key, value) pair as parsing produces it: the key holds no colon, and
/// neither side holds a line terminator.
pub open spec fn entry_clean(p: (Seq<char>, Seq<char>)) -> bool {
    colon_free(p.0) && crlf_free(p.0) && crlf_free(p.1)
}

/// The header block that writes the given pairs back out: one `key:value`
/// entry per pair, entries joined by `\r\n`.
pub open spec fn render_pairs(pairs: Seq<(Seq<char>, Seq<char>)>) -> Seq<char>
    decreases pairs.len(),
{
    if pairs.len() == 0 {
        Seq::empty()
    } else if pairs.len() == 1 {
        pairs[0].0 + colon_pat() + pairs[0].1
    } else {
        pairs[0].0 + colon_pat() + pairs[0].1 + crlf_pat() + render_pairs(
            pairs.subrange(1, pairs.len() as int),
        )
    }
}

/// `crlf_free` says exactly that the pattern `\r\n` matches nowhere.
proof fn lemma_crlf_free_no_match(s: Seq<char>)
    ensures
        crlf_free(s) <==> (forall|j: int| !match_at(s, crlf_pat(), j)),
{
    if crlf_free(s) {
        assert forall|j: int| !match_at(s, crlf_pat(), j) by {
            if match_at(s, crlf_pat(), j) {
                assert(s.subrange(j, j + 2)[0] == '\r');
                assert(s.subrange(j, j + 2)[1] == '\n');
            }
        }
    }
    if forall|j: int| !match_at(s, crlf_pat(), j) {
        assert forall|p: int| 0 <= p < s.len() - 1 implies !(#[trigger] s[p] == '\r' && s[p + 1]
            == '\n') by {
            if s[p] == '\r' && s[p + 1] == '\n' {
                assert(s.subrange(p, p + 2) =~= crlf_pat());
                assert(match_at(s, crlf_pat(), p));
            }
        }
    }
}

/// `colon_free` says exactly that the pattern `:` matches nowhere.
proof fn lemma_colon_free_no_match(s: Seq<char>)
    ensures
        colon_free(s) <==> (forall|j: int| !match_at(s, colon_pat(), j)),
{
    if colon_free(s) {
        assert forall|j: int| !match_at(s, colon_pat(), j) by {
            if match_at(s, colon_pat(), j) {
                assert(s.subrange(j, j + 1)[0] == ':');
            }
        }
    }
    if forall|j: int| !match_at(s, colon_pat(), j) {
        assert forall|p: int| 0 <= p < s.len() implies s[p] != ':' by {
            if s[p] == ':' {
                assert(s.subrange(p, p + 1) =~= colon_pat());
                assert(match_at(s, colon_pat(), p));
            }
        }
    }
}

/// Every entry that `split_crlf` yields is free of line terminators.
proof fn lemma_split_crlf_lines_clean(s: Seq<char>)
    ensures
        forall|i: int| 0 <= i < split_crlf(s).len() ==> crlf_free(#[trigger] split_crlf(s)[i]),
    decreases s.len(),
{
    lemma_first_match(s, crlf_pat());
    let f = first_match(s, crlf_pat());
    if f < 0 || f + 2 > s.len() {
        lemma_crlf_free_no_match(s);
        assert(split_crlf(s) =~= seq![s]);
    } else {
        let head = s.subrange(0, f);
        let tail = s.subrange(f + 2, s.len() as int);
        assert forall|p: int| 0 <= p < head.len() - 1 implies !(#[trigger] head[p] == '\r' && head[p + 1]
            == '\n') by {
            if head[p] == '\r' && head[p + 1] == '\n' {
                assert(s.subrange(p, p + 2) =~= crlf_pat());
                assert(match_at(s, crlf_pat(), p));
            }
        }
        lemma_split_crlf_lines_clean(tail);
        assert forall|i: int| 0 <= i < split_crlf(s).len() implies crlf_free(
            #[trigger] split_crlf(s)[i],
        ) by {
            if i == 0 {
                assert(split_crlf(s)[0] == head);
            } else {
                assert(split_crlf(s)[i] == split_crlf(tail)[i - 1]);
            }
        }
    }
}

/// Splitting an entry free of line terminators on its first colon gives a
/// clean pair.
proof fn lemma_split_colon_clean(l: Seq<char>)
    requires
        crlf_free(l),
    ensures
        entry_clean(split_colon(l)),
{
    lemma_first_match(l, colon_pat());
    let f = first_match(l, colon_pat());
    if 0 <= f < l.len() {
        let key = l.subrange(0, f);
        let val = l.subrange(f + 1, l.len() as int);
        assert forall|p: int| 0 <= p < key.len() implies key[p] != ':' by {
            if key[p] == ':' {
                assert(l.subrange(p, p + 1) =~= colon_pat());
                assert(match_at(l, colon_pat(), p));
            }
        }
        assert forall|p: int| 0 <= p < key.len() - 1 implies !(#[trigger] key[p] == '\r' && key[p + 1]
            == '\n') by {
            assert(key[p] == l[p] && key[p + 1] == l[p + 1]);
        }
        assert forall|p: int| 0 <= p < val.len() - 1 implies !(#[trigger] val[p] == '\r' && val[p + 1]
            == '\n') by {
            assert(val[p] == l[p + f + 1] && val[p + 1] == l[p + f + 2]);
        }
    } else {
        lemma_colon_free_no_match(l);
        assert(split_colon(l).1 =~= Seq::<char>::empty());
    }
}

/// Every pair that parsing yields is clean.
proof fn lemma_pairs_of_entries_clean(ls: Seq<Seq<char>>)
    requires
        forall|i: int| 0 <= i < ls.len() ==> crlf_free(#[trigger] ls[i]),
    ensures
        forall|i: int|
            0 <= i < pairs_of_entries(ls).len() ==> entry_clean(#[trigger] pairs_of_entries(ls)[i]),
    decreases ls.len(),
{
    if ls.len() > 0 {
        let rest = ls.subrange(1, ls.len() as int);
        lemma_pairs_of_entries_clean(rest);
        if ls[0].len() > 0 {
            lemma_split_colon_clean(ls[0]);
            assert forall|i: int| 0 <= i < pairs_of_entries(ls).len() implies entry_clean(
                #[trigger] pairs_of_entries(ls)[i],
            ) by {
                if i > 0 {
                    assert(pairs_of_entries(ls)[i] == pairs_of_entries(rest)[i - 1]);
                }
            }
        }
    }
}

/// Every pair that parsing a header block yields is clean.
pub proof fn lemma_parsed_clean(s: Seq<char>)
    ensures
        forall|i: int|
            0 <= i < parse_headers_of(s).len() ==> entry_clean(#[trigger] parse_headers_of(s)[i]),
{
    lemma_split_crlf_lines_clean(s);
    lemma_pairs_of_entries_clean(split_crlf(s));
}

/// Parsing one rendered clean entry gives the pair back.
proof fn lemma_parse_rendered_entry(k: Seq<char>, v: Seq<char>)
    requires
        colon_free(k),
    ensures
        split_colon(k + colon_pat() + v) == (k, v),
{
    let l = k + colon_pat() + v;
    assert(l[k.len() as int] == ':');
    assert(l.subrange(k.len() as int, k.len() as int + 1) =~= colon_pat());
    assert(match_at(l, colon_pat(), k.len() as int));
    assert forall|j: int| 0 <= j < k.len() implies !match_at(l, colon_pat(), j) by {
        if match_at(l, colon_pat(), j) {
            assert(l.subrange(j, j + 1)[0] == ':');
            assert(l[j] == k[j]);
        }
    }
    lemma_first_match_is(l, colon_pat(), k.len() as int);
    assert(l.subrange(0, k.len() as int) =~= k);
    assert(l.subrange(k.len() as int + 1, l.len() as int) =~= v);
}

/// A rendered clean entry holds no line terminator.
proof fn lemma_rendered_entry_crlf_free(k: Seq<char>, v: Seq<char>)
    requires
        crlf_free(k),
        crlf_free(v),
    ensures
        crlf_free(k + colon_pat() + v),
{
    let l = k + colon_pat() + v;
    assert forall|p: int| 0 <= p < l.len() - 1 implies !(#[trigger] l[p] == '\r' && l[p + 1] == '\n') by {
        let kn = k.len() as int;
        if p + 1 < kn {
            assert(l[p] == k[p] && l[p + 1] == k[p + 1]);
        } else if p + 1 == kn || p == kn {
            assert(l[kn] == ':');
        } else {
            assert(l[p] == v[p - kn - 1] && l[p + 1] == v[p - kn]);
        }
    }
}

/// Parsing the rendering of clean pairs yields exactly those pairs.
proof fn lemma_parse_rendered_pairs(pairs: Seq<(Seq<char>, Seq<char>)>)
    requires
        forall|i: int| 0 <= i < pairs.len() ==> entry_clean(#[trigger] pairs[i]),
    ensures
        parse_headers_of(render_pairs(pairs)) == pairs,
    decreases pairs.len(),
{
    let r = render_pairs(pairs);
    if pairs.len() == 0 {
        lemma_first_match(r, crlf_pat());
        assert(split_crlf(r) =~= seq![r]);
        lemma_pairs_of_one(r);
        assert(parse_headers_of(r) =~= pairs);
    } else {
        let k = pairs[0].0;
        let v = pairs[0].1;
        let e = k + colon_pat() + v;
        assert(entry_clean(pairs[0]));
        lemma_rendered_entry_crlf_free(k, v);
        lemma_parse_rendered_entry(k, v);
        assert(e[k.len() as int] == ':');
        if pairs.len() == 1 {
            lemma_crlf_free_no_match(e);
            lemma_first_match_none(e, crlf_pat());
            assert(split_crlf(e) =~= seq![e]);
            lemma_pairs_of_one(e);
            assert(parse_headers_of(e) =~= seq![split_colon(e)]);
            assert(split_colon(e) == (k, v));
            assert(pairs[0] == (k, v));
            assert(parse_headers_of(r) =~= pairs);
        } else {
            let rest = pairs.subrange(1, pairs.len() as int);
            let tail = render_pairs(rest);
            assert(r =~= e + crlf_pat() + tail);
            let m = e.len() as int;
            assert(r[m] == '\r' && r[m + 1] == '\n');
            assert(r.subrange(m, m + 2) =~= crlf_pat());
            assert(match_at(r, crlf_pat(), m));
            assert forall|j: int| 0 <= j < m implies !match_at(r, crlf_pat(), j) by {
                if match_at(r, crlf_pat(), j) {
                    assert(r.subrange(j, j + 2)[0] == '\r');
                    assert(r.subrange(j, j + 2)[1] == '\n');
                    if j + 1 < m {
                        assert(r[j] == e[j] && r[j + 1] == e[j + 1]);
                    } else {
                        assert(r[j + 1] == '\r');
                    }
                }
            }
            lemma_first_match_is(r, crlf_pat(), m);
            assert(r.subrange(0, m) =~= e);
            assert(r.subrange(m + 2, r.len() as int) =~= tail);
            assert(split_crlf(r) =~= seq![e] + split_crlf(tail));
            lemma_pairs_of_cons(e, split_crlf(tail));
            lemma_parse_rendered_pairs(rest);
            assert(parse_headers_of(r) =~= seq![split_colon(e)] + pairs_of_entries(
                split_crlf(tail),
            ));
            assert(split_colon(e) == (k, v));
            assert(pairs[0] == (k, v));
            assert(parse_headers_of(r) =~= pairs);
        }
    }
}

/// Parsing is idempotent: writing the parsed pairs back out as a header
/// block and parsing that block again yields the same pairs.
pub proof fn lemma_parse_idempotent(s: Seq<char>)
    ensures
        parse_headers_of(render_pairs(parse_headers_of(s))) == parse_headers_of(s),
{
    lemma_parsed_clean(s);
    lemma_parse_rendered_pairs(parse_headers_of(s));
}

/// Character-by-character string equality.
pub fn str_eq(a: &str, b: &str) -> (r: bool)
    ensures
        r == (a@ == b@),
{
    let na = a.unicode_len();
    let nb = b.unicode_len();
    if na != nb {
        return false;
    }
    let mut i: usize = 0;
    while i < na
        invariant
            na == a@.len(),
            na == b@.len(),
            0 <= i <= na,
            forall|j: int| 0 <= j < i ==> a@[j] == b@[j],
        decreases na - i,
    {
        if a.get_char(i) != b.get_char(i) {
            return false;
        }
        i = i + 1;
    }
    proof {
        assert(a@ =~= b@);
    }
    true
}

/// Dropping a run of leading whitespace does not change `trim_start_of`.
proof fn lemma_trim_start_skip(s: Seq<char>, a: int)
    requires
        0 <= a <= s.len(),
        forall|j: int| 0 <= j < a ==> is_space_char(s[j]),
    ensures
        trim_start_of(s) == trim_start_of(s.subrange(a, s.len() as int)),
    decreases a,
{
    if a == 0 {
        assert(s.subrange(0, s.len() as int) =~= s);
    } else {
        let t = s.subrange(1, s.len() as int);
        lemma_trim_start_skip(t, a - 1);
        assert(t.subrange(a - 1, t.len() as int) =~= s.subrange(a, s.len() as int));
    }
}

/// Dropping a run of trailing whitespace does not change `trim_end_of`.
proof fn lemma_trim_end_skip(s: Seq<char>, b: int)
    requires
        0 <= b <= s.len(),
        forall|j: int| b <= j < s.len() ==> is_space_char(s[j]),
    ensures
        trim_end_of(s) == trim_end_of(s.subrange(0, b)),
    decreases s.len() - b,
{
    if b == s.len() {
        assert(s.subrange(0, s.len() as int) =~= s);
    } else {
        let t = s.subrange(0, s.len() - 1);
        assert(is_space_char(s[s.len() - 1]));
        lemma_trim_end_skip(t, b);
        assert(t.subrange(0, b) =~= s.subrange(0, b));
    }
}

/// `s` with surrounding whitespace removed.
pub fn trim_str(s: &str) -> (r: &str)
    ensures
        r@ == trim_of(s@),
{
    let n = s.unicode_len();
    let mut a: usize = 0;
    while a < n && is_space(s.get_char(a))
        invariant
            n == s@.len(),
            0 <= a <= n,
            forall|j: int| 0 <= j < a ==> is_space_char(s@[j]),
        decreases n - a,
    {
        a = a + 1;
    }
    let ghost t = s@.subrange(a as int, n as int);
    proof {
        lemma_trim_start_skip(s@, a as int);
        if a < n {
            assert(!is_space_char(t[0]));
        }
        assert(trim_start_of(t) == t);
    }
    let mut b: usize = n;
    while b > a && is_space(s.get_char(b - 1))
        invariant
            n == s@.len(),
            0 <= a <= b <= n,
            forall|j: int| b <= j < n ==> is_space_char(s@[j]),
        decreases b,
    {
        b = b - 1;
    }
    proof {
        assert forall|j: int| b - a <= j < t.len() implies is_space_char(t[j]) by {
            assert(t[j] == s@[j + a]);
        }
        lemma_trim_end_skip(t, b - a);
        let u = t.subrange(0, b - a);
        assert(u =~= s@.subrange(a as int, b as int));
        if b > a {
            assert(u[u.len() - 1] == s@[b - 1]);
            assert(!is_space_char(u[u.len() - 1]));
        }
        assert(trim_end_of(u) == u);
    }
    s.substring_char(a, b)
}

/// Whether `c` counts as whitespace for trimming.
fn is_space(c: char) -> (r: bool)
    ensures
        r == is_space_char(c),
{
    c == ' ' || c == '\t' || c == '\r' || c == '\n'
}

/// Whether some entry of `pairs` has key exactly `key` and a value that
/// trims to `val`.
pub fn headers_contain(pairs: &Vec<(String, String)>, key: &str, val: &str) -> (r: bool)
    ensures
        r == has_entry(pairs.deep_view(), key@, val@),
{
    let n = pairs.len();
    let mut i: usize = 0;
    while i < n
        invariant
            n == pairs.len(),
            0 <= i <= n,
            pairs.deep_view().len() == n,
            forall|j: int|
                0 <= j < i ==> !(pairs.deep_view()[j].0 == key@ && trim_of(
                    pairs.deep_view()[j].1,
                ) == val@),
        decreases n - i,
    {
        let k: &String = &pairs[i].0;
        let v: &String = &pairs[i].1;
        proof {
            assert(pairs.deep_view()[i as int].0 == k@);
            assert(pairs.deep_view()[i as int].1 == v@);
        }
        if str_eq(k.as_str(), key) && str_eq(trim_str(v.as_str()), val) {
            return true;
        }
        i = i + 1;
    }
    false
}

/// Position of the first `\r\n` in `s`, if any.
fn find_crlf(s: &str) -> (r: Option<usize>)
    ensures
        match r {
            Some(i) => first_match(s@, crlf_pat()) == i as int,
            None => first_match(s@, crlf_pat()) == -1,
        },
{
    let n = s.unicode_len();
    if n < 2 {
        proof {
            lemma_first_match_none(s@, crlf_pat());
        }
        return None;
    }
    let mut i: usize = 0;
    while i < n - 1
        invariant
            n == s@.len(),
            2 <= n,
            0 <= i <= n - 1,
            forall|j: int| 0 <= j < i ==> !match_at(s@, crlf_pat(), j),
        decreases n - i,
    {
        let c0 = s.get_char(i);
        let c1 = s.get_char(i + 1);
        if c0 == '\r' && c1 == '\n' {
            proof {
                assert(s@.subrange(i as int, i + 2) =~= crlf_pat());
                lemma_first_match_is(s@, crlf_pat(), i as int);
            }
            return Some(i);
        }
        proof {
            assert forall|j: int| 0 <= j <= i implies !match_at(s@, crlf_pat(), j) by {
                if j == i {
                    if match_at(s@, crlf_pat(), j) {
                        assert(s@.subrange(j, j + 2)[0] == '\r');
                        assert(s@.subrange(j, j + 2)[1] == '\n');
                    }
                }
            }
        }
        i = i + 1;
    }
    proof {
        assert forall|j: int| !match_at(s@, crlf_pat(), j) by {
            if 0 <= j && j + 2 <= s@.len() {
                assert(j < n - 1);
            }
        }
        lemma_first_match_none(s@, crlf_pat());
    }
    None
}

/// Position of the first `:` in `s`, if any.
fn find_colon(s: &str) -> (r: Option<usize>)
    ensures
        match r {
            Some(i) => first_match(s@, colon_pat()) == i as int,
            None => first_match(s@, colon_pat()) == -1,
        },
{
    let n = s.unicode_len();
    let mut i: usize = 0;
    while i < n
        invariant
            n == s@.len(),
            0 <= i <= n,
            forall|j: int| 0 <= j < i ==> !match_at(s@, colon_pat(), j),
        decreases n - i,
    {
        let c = s.get_char(i);
        if c == ':' {
            proof {
                assert(s@.subrange(i as int, i + 1) =~= colon_pat());
                lemma_first_match_is(s@, colon_pat(), i as int);
            }
            return Some(i);
        }
        proof {
            assert forall|j: int| 0 <= j <= i implies !match_at(s@, colon_pat(), j) by {
                if j == i {
                    if match_at(s@, colon_pat(), j) {
                        assert(s@.subrange(j, j + 1)[0] == ':');
                    }
                }
            }
        }
        i = i + 1;
    }
    proof {
        assert forall|j: int| !match_at(s@, colon_pat(), j) by {
            if 0 <= j && j + 1 <= s@.len() {
                assert(j < n);
            }
        }
        lemma_first_match_none(s@, colon_pat());
    }
    None
}

/// Splitting a one-entry sequence of entries.
proof fn lemma_pairs_of_one(l: Seq<char>)
    ensures
        pairs_of_entries(seq![l]) == if l.len() == 0 {
            Seq::<(Seq<char>, Seq<char>)>::empty()
        } else {
            seq![split_colon(l)]
        },
{
    let ls = seq![l];
    assert(ls.subrange(1, 1) =~= Seq::<Seq<char>>::empty());
    assert(pairs_of_entries(Seq::<Seq<char>>::empty()) =~= Seq::<(Seq<char>, Seq<char>)>::empty());
    if l.len() == 0 {
        assert(pairs_of_entries(ls) =~= Seq::<(Seq<char>, Seq<char>)>::empty());
    } else {
        assert(pairs_of_entries(ls) =~= seq![split_colon(l)]);
    }
}

/// Splitting a sequence of entries with a first entry in front.
pub proof fn lemma_pairs_of_cons(l: Seq<char>, ls: Seq<Seq<char>>)
    ensures
        pairs_of_entries(seq![l] + ls) == if l.len() == 0 {
            pairs_of_entries(ls)
        } else {
            seq![split_colon(l)] + pairs_of_entries(ls)
        },
{
    let c = seq![l] + ls;
    assert(c[0] == l);
    assert(c.subrange(1, c.len() as int) =~= ls);
    if l.len() == 0 {
        assert(pairs_of_entries(c) =~= pairs_of_entries(ls));
    } else {
        assert(pairs_of_entries(c) =~= seq![split_colon(l)] + pairs_of_entries(ls));
    }
}

/// One entry turned into its (key, value) pair.
fn split_entry(l: &str) -> (r: (String, String))
    ensures
        r.0@ == split_colon(l@).0,
        r.1@ == split_colon(l@).1,
{
    let n = l.unicode_len();
    match find_colon(l) {
        Some(i) => {
            proof {
                lemma_first_match(l@, colon_pat());
            }
            let key = l.substring_char(0, i);
            let val = l.substring_char(i + 1, n);
            (String::from_str(key), String::from_str(val))
        },
        None => {
            proof {
                reveal_strlit("");
                assert(""@ =~= Seq::<char>::empty());
            }
            (String::from_str(l), String::from_str(""))
        },
    }
}

/// Parse a header block into its ordered (key, value) pairs.
///
/// The block is split on each `\r\n`; empty entries are dropped; every other
/// entry splits on its first colon into key and value, an entry with no
/// colon yielding the whole entry as key and an empty value.
pub fn parse_headers(s: &str) -> (r: Vec<(String, String)>)
    ensures
        r.deep_view() == parse_headers_of(s@),
{
    let mut out: Vec<(String, String)> = Vec::new();
    let mut rest: &str = s;
    proof {
        assert(out.deep_view() =~= Seq::<(Seq<char>, Seq<char>)>::empty());
    }
    loop
        invariant
            parse_headers_of(s@) == out.deep_view() + pairs_of_entries(split_crlf(rest@)),
        decreases rest@.len(),
    {
        let n = rest.unicode_len();
        match find_crlf(rest) {
            Some(i) => {
                proof {
                    lemma_first_match(rest@, crlf_pat());
                }
                let entry = rest.substring_char(0, i);
                let tail = rest.substring_char(i + 2, n);
                proof {
                    assert(split_crlf(rest@) =~= seq![entry@] + split_crlf(tail@));
                    lemma_pairs_of_cons(entry@, split_crlf(tail@));
                }
                let ghost prev = out.deep_view();
                if entry.unicode_len() > 0 {
                    let kv = split_entry(entry);
                    out.push(kv);
                    proof {
                        assert(out.deep_view() =~= prev + seq![split_colon(entry@)]);
                    }
                }
                rest = tail;
            },
            None => {
                proof {
                    assert(split_crlf(rest@) =~= seq![rest@]);
                    lemma_pairs_of_one(rest@);
                }
                let ghost prev = out.deep_view();
                if rest.unicode_len() > 0 {
                    let kv = split_entry(rest);
                    out.push(kv);
                    proof {
                        assert(out.deep_view() =~= prev + seq![split_colon(rest@)]);
                    }
                }
                proof {
                    assert(parse_headers_of(s@) =~= out.deep_view());
                }
                return out;
            },
        }
    }
}

} // verus!
