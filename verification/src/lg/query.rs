//! Text answers of looking-glass servers: HTML clean-up and extraction of
//! the traceroute block.

use vstd::prelude::*;
use crate::report::display::{words, words_of};
use crate::text::{chars_of, matches_at, occurs_at, parse_unsigned, parse_unsigned_spec, split_at_char, split_chars, string_from_chars};

verus! {

/// Characters of `s` outside `<…>` tags, and whether `s` ends inside a tag.
pub open spec fn untag(s: Seq<char>) -> (Seq<char>, bool)
    decreases s.len(),
{
    if s.len() == 0 {
        (Seq::empty(), false)
    } else {
        let (out, in_tag) = untag(s.drop_last());
        let c = s.last();
        if c == '<' {
            (out, true)
        } else if c == '>' {
            (out, false)
        } else if !in_tag {
            (out.push(c), in_tag)
        } else {
            (out, in_tag)
        }
    }
}

/// The entity `&lt;`.
pub open spec fn ent_lt() -> Seq<char> {
    seq!['&', 'l', 't', ';']
}

/// The entity `&gt;`.
pub open spec fn ent_gt() -> Seq<char> {
    seq!['&', 'g', 't', ';']
}

/// The entity `&amp;`.
pub open spec fn ent_amp() -> Seq<char> {
    seq!['&', 'a', 'm', 'p', ';']
}

/// The entity `&nbsp;`.
pub open spec fn ent_nbsp() -> Seq<char> {
    seq!['&', 'n', 'b', 's', 'p', ';']
}

/// `s` from position `i` on, with each of the entities `&lt;`, `&gt;`,
/// `&amp;` and `&nbsp;` decoded once, in a single left-to-right pass (what a
/// decoded entity produces is not decoded again).
pub open spec fn decoded_from(s: Seq<char>, i: int) -> Seq<char>
    decreases s.len() - i,
{
    if i < 0 || i >= s.len() {
        Seq::empty()
    } else if occurs_at(s, ent_lt(), i) {
        seq!['<'] + decoded_from(s, i + 4)
    } else if occurs_at(s, ent_gt(), i) {
        seq!['>'] + decoded_from(s, i + 4)
    } else if occurs_at(s, ent_amp(), i) {
        seq!['&'] + decoded_from(s, i + 5)
    } else if occurs_at(s, ent_nbsp(), i) {
        seq![' '] + decoded_from(s, i + 6)
    } else {
        seq![s[i]] + decoded_from(s, i + 1)
    }
}

/// `s` without its HTML tags, with the entities `&lt;`, `&gt;`, `&amp;` and
/// `&nbsp;` each decoded once.
pub open spec fn spec_strip_html(s: Seq<char>) -> Seq<char> {
    decoded_from(untag(s).0, 0)
}

fn decode_entities(s: &Vec<char>) -> (r: Vec<char>)
    ensures
        r@ == decoded_from(s@, 0),
{
    let lt = vec!['&', 'l', 't', ';'];
    let gt = vec!['&', 'g', 't', ';'];
    let amp = vec!['&', 'a', 'm', 'p', ';'];
    let nbsp = vec!['&', 'n', 'b', 's', 'p', ';'];
    assert(lt@ =~= ent_lt());
    assert(gt@ =~= ent_gt());
    assert(amp@ =~= ent_amp());
    assert(nbsp@ =~= ent_nbsp());
    let mut out: Vec<char> = Vec::new();
    let mut i: usize = 0;
    while i < s.len()
        invariant
            i <= s@.len(),
            lt@ == ent_lt(),
            gt@ == ent_gt(),
            amp@ == ent_amp(),
            nbsp@ == ent_nbsp(),
            out@ + decoded_from(s@, i as int) == decoded_from(s@, 0),
        decreases s@.len() - i,
    {
        let ghost before = out@;
        if matches_at(s.as_slice(), lt.as_slice(), i) {
            out.push('<');
            i = i + 4;
        } else if matches_at(s.as_slice(), gt.as_slice(), i) {
            out.push('>');
            i = i + 4;
        } else if matches_at(s.as_slice(), amp.as_slice(), i) {
            out.push('&');
            i = i + 5;
        } else if matches_at(s.as_slice(), nbsp.as_slice(), i) {
            out.push(' ');
            i = i + 6;
        } else {
            out.push(s[i]);
            i = i + 1;
        }
        assert(out@ + decoded_from(s@, i as int) =~= before + decoded_from(s@, 0).subrange(before.len() as int, decoded_from(s@, 0).len() as int));
    }
    assert(decoded_from(s@, i as int) =~= Seq::<char>::empty());
    assert(out@ =~= out@ + decoded_from(s@, i as int));
    out
}

/// Text without '&' has no entity to decode.
proof fn lemma_decoded_without_amp(s: Seq<char>, i: int)
    requires
        0 <= i,
        forall|k: int| 0 <= k < s.len() ==> s[k] != '&',
    ensures
        decoded_from(s, i) == (if i < s.len() { s.subrange(i, s.len() as int) } else { Seq::<char>::empty() }),
    decreases s.len() - i,
{
    if i < s.len() {
        assert(s[i] != '&');
        assert(!occurs_at(s, ent_lt(), i)) by {
            if occurs_at(s, ent_lt(), i) {
                assert(s.subrange(i, i + 4)[0] == ent_lt()[0]);
            }
        }
        assert(!occurs_at(s, ent_gt(), i)) by {
            if occurs_at(s, ent_gt(), i) {
                assert(s.subrange(i, i + 4)[0] == ent_gt()[0]);
            }
        }
        assert(!occurs_at(s, ent_amp(), i)) by {
            if occurs_at(s, ent_amp(), i) {
                assert(s.subrange(i, i + 5)[0] == ent_amp()[0]);
            }
        }
        assert(!occurs_at(s, ent_nbsp(), i)) by {
            if occurs_at(s, ent_nbsp(), i) {
                assert(s.subrange(i, i + 6)[0] == ent_nbsp()[0]);
            }
        }
        lemma_decoded_without_amp(s, i + 1);
        assert(decoded_from(s, i) =~= s.subrange(i, s.len() as int));
    }
}

/// Removing the tags brings no '&' into a text that has none.
proof fn lemma_untag_keeps_no_amp(s: Seq<char>)
    requires
        forall|k: int| 0 <= k < s.len() ==> s[k] != '&',
    ensures
        forall|k: int| 0 <= k < untag(s).0.len() ==> (#[trigger] untag(s).0[k]) != '&',
    decreases s.len(),
{
    if s.len() > 0 {
        lemma_untag_keeps_no_amp(s.drop_last());
        let prev = untag(s.drop_last()).0;
        let cur = untag(s).0;
        assert forall|k: int| 0 <= k < cur.len() implies (#[trigger] cur[k]) != '&' by {
            if k < prev.len() {
                assert(cur[k] == prev[k]);
            } else {
                assert(cur[k] == s.last());
            }
        }
    }
}

/// On text without '&', stripping the HTML removes exactly the tags: the
/// result is the characters outside `<…>` (an unclosed '<' hides the rest),
/// and it holds neither '<' nor '>'.
pub proof fn lemma_strip_without_entities(s: Seq<char>)
    requires
        forall|k: int| 0 <= k < s.len() ==> s[k] != '&',
    ensures
        spec_strip_html(s) == untag(s).0,
        forall|k: int| 0 <= k < spec_strip_html(s).len() ==> spec_strip_html(s)[k] != '<' && spec_strip_html(s)[k] != '>',
{
    lemma_untag_keeps_no_amp(s);
    lemma_decoded_without_amp(untag(s).0, 0);
    assert(untag(s).0.subrange(0, untag(s).0.len() as int) =~= untag(s).0);
    lemma_untag_removes_brackets(s);
}

fn strip_html_chars(s: &[char]) -> (r: Vec<char>)
    ensures
        r@ == spec_strip_html(s@),
{
    let mut out: Vec<char> = Vec::new();
    let mut in_tag = false;
    let mut i: usize = 0;
    while i < s.len()
        invariant
            i <= s@.len(),
            (out@, in_tag) == untag(s@.subrange(0, i as int)),
        decreases s@.len() - i,
    {
        proof {
            assert(s@.subrange(0, i + 1).drop_last() =~= s@.subrange(0, i as int));
        }
        let c = s[i];
        if c == '<' {
            in_tag = true;
        } else if c == '>' {
            in_tag = false;
        } else if !in_tag {
            out.push(c);
        }
        i = i + 1;
    }
    assert(s@.subrange(0, s@.len() as int) =~= s@);
    decode_entities(&out)
}

/// Removes the HTML tags of `s` (everything between `<` and `>`) and decodes
/// the most common entities.
pub fn strip_html(s: &str) -> (r: String)
    ensures
        r@ == spec_strip_html(s@),
{
    let cs = chars_of(s);
    let out = strip_html_chars(cs.as_slice());
    string_from_chars(&out)
}

/// `c` equals `p` once ASCII letters are lower-cased (`p` is lower case).
pub open spec fn ci_char_eq(c: char, p: char) -> bool {
    c == p || ('a' <= p && p <= 'z' && (c as u32) + 32 == (p as u32))
}

/// `pat` (lower case) occurs at `i` in `hay`, ignoring the case of ASCII
/// letters.
pub open spec fn ci_occurs_at(hay: Seq<char>, pat: Seq<char>, i: int) -> bool {
    0 <= i && i + pat.len() <= hay.len() && forall|k: int| 0 <= k < pat.len() ==> ci_char_eq(#[trigger] hay[i + k], pat[k])
}

/// First position at or after `from` where `pat` occurs, ignoring case.
pub open spec fn first_ci_from(hay: Seq<char>, pat: Seq<char>, from: int) -> Option<int>
    decreases hay.len() + 1 - from,
{
    if from < 0 || from > hay.len() {
        None
    } else if ci_occurs_at(hay, pat, from) {
        Some(from)
    } else {
        first_ci_from(hay, pat, from + 1)
    }
}

/// First position at or after `from` of the character `c`.
pub open spec fn first_char_from(hay: Seq<char>, c: char, from: int) -> Option<int>
    decreases hay.len() - from,
{
    if from < 0 || from >= hay.len() {
        None
    } else if hay[from] == c {
        Some(from)
    } else {
        first_char_from(hay, c, from + 1)
    }
}

fn ci_char_eq_exec(c: char, p: char) -> (r: bool)
    ensures
        r == ci_char_eq(c, p),
{
    c == p || ('a' <= p && p <= 'z' && (c as u32) + 32 == (p as u32))
}

fn ci_matches_at(hay: &[char], pat: &[char], i: usize) -> (r: bool)
    ensures
        r == ci_occurs_at(hay@, pat@, i as int),
{
    if i > hay.len() || hay.len() - i < pat.len() {
        return false;
    }
    let n = hay.len();
    let mut k: usize = 0;
    while k < pat.len()
        invariant
            n == hay@.len(),
            i <= hay@.len(),
            i + pat@.len() <= hay@.len(),
            k <= pat@.len(),
            forall|j: int| 0 <= j < k ==> ci_char_eq(#[trigger] hay@[i + j], pat@[j]),
        decreases pat@.len() - k,
    {
        assert(i + k < hay@.len());
        if !ci_char_eq_exec(hay[i + k], pat[k]) {
            return false;
        }
        k = k + 1;
    }
    true
}

fn find_ci_from(hay: &[char], pat: &[char], from: usize) -> (r: Option<usize>)
    ensures
        match r {
            Some(i) => first_ci_from(hay@, pat@, from as int) == Some(i as int),
            None => first_ci_from(hay@, pat@, from as int) is None,
        },
{
    if from > hay.len() {
        return None;
    }
    let mut i: usize = from;
    while i < hay.len()
        invariant
            from <= i <= hay@.len(),
            first_ci_from(hay@, pat@, from as int) == first_ci_from(hay@, pat@, i as int),
        decreases hay@.len() - i,
    {
        if ci_matches_at(hay, pat, i) {
            return Some(i);
        }
        i = i + 1;
    }
    if ci_matches_at(hay, pat, i) {
        return Some(i);
    }
    assert(first_ci_from(hay@, pat@, i + 1) is None);
    None
}

fn find_char_from(hay: &[char], c: char, from: usize) -> (r: Option<usize>)
    ensures
        match r {
            Some(i) => first_char_from(hay@, c, from as int) == Some(i as int),
            None => first_char_from(hay@, c, from as int) is None,
        },
{
    let mut i: usize = from;
    while i < hay.len()
        invariant
            from <= i,
            first_char_from(hay@, c, from as int) == first_char_from(hay@, c, i as int),
        decreases hay@.len() - i,
    {
        if hay[i] == c {
            return Some(i);
        }
        i = i + 1;
    }
    None
}

/// The text of the first `<pre>` block of an HTML page (tags matched
/// ignoring the case of ASCII letters), stripped of HTML; the whole page
/// stripped when there is no complete block.
pub open spec fn spec_extract_pre(html: Seq<char>) -> Seq<char> {
    match first_ci_from(html, "<pre"@, 0) {
        Some(start) => match first_char_from(html, '>', start) {
            Some(gt) => match first_ci_from(html, "</pre>"@, gt + 1) {
                Some(end) => spec_strip_html(html.subrange(gt + 1, end)),
                None => spec_strip_html(html),
            },
            None => spec_strip_html(html),
        },
        None => spec_strip_html(html),
    }
}

proof fn lemma_first_ci_none(hay: Seq<char>, pat: Seq<char>, from: int)
    requires
        0 <= from,
        forall|i: int| from <= i <= hay.len() ==> !ci_occurs_at(hay, pat, i),
    ensures
        first_ci_from(hay, pat, from) is None,
    decreases hay.len() + 1 - from,
{
    if from <= hay.len() {
        lemma_first_ci_none(hay, pat, from + 1);
    }
}

/// Without a `<pre` tag (in any case), the extraction is the whole text with
/// its tags stripped.
pub proof fn lemma_extract_pre_without_pre(html: Seq<char>)
    requires
        forall|i: int| 0 <= i <= html.len() ==> !ci_occurs_at(html, "<pre"@, i),
    ensures
        spec_extract_pre(html) == spec_strip_html(html),
{
    lemma_first_ci_none(html, "<pre"@, 0);
}

proof fn lemma_first_char_bound(hay: Seq<char>, c: char, from: int)
    ensures
        match first_char_from(hay, c, from) {
            Some(i) => from <= i < hay.len(),
            None => true,
        },
    decreases hay.len() - from,
{
    if 0 <= from < hay.len() && hay[from] != c {
        lemma_first_char_bound(hay, c, from + 1);
    }
}

proof fn lemma_first_ci_bound(hay: Seq<char>, pat: Seq<char>, from: int)
    ensures
        match first_ci_from(hay, pat, from) {
            Some(i) => from <= i && i + pat.len() <= hay.len(),
            None => true,
        },
    decreases hay.len() + 1 - from,
{
    if 0 <= from <= hay.len() && !ci_occurs_at(hay, pat, from) {
        lemma_first_ci_bound(hay, pat, from + 1);
    }
}

/// Bounds of the content of the first complete `<pre>` block.
fn pre_bounds(cs: &Vec<char>) -> (r: Option<(usize, usize)>)
    ensures
        match r {
            Some((a, b)) => a <= b <= cs@.len() && match first_ci_from(cs@, "<pre"@, 0) {
                Some(start) => match first_char_from(cs@, '>', start) {
                    Some(gt) => a == gt + 1 && first_ci_from(cs@, "</pre>"@, gt + 1) == Some(b as int),
                    None => false,
                },
                None => false,
            },
            None => match first_ci_from(cs@, "<pre"@, 0) {
                Some(start) => match first_char_from(cs@, '>', start) {
                    Some(gt) => first_ci_from(cs@, "</pre>"@, gt + 1) is None,
                    None => true,
                },
                None => true,
            },
        },
{
    let open = chars_of("<pre");
    let close = chars_of("</pre>");
    match find_ci_from(cs.as_slice(), open.as_slice(), 0) {
        Some(start) => match find_char_from(cs.as_slice(), '>', start) {
            Some(gt) => {
                proof {
                    lemma_first_char_bound(cs@, '>', start as int);
                }
                let n = cs.len();
                assert(gt < n);
                match find_ci_from(cs.as_slice(), close.as_slice(), gt + 1) {
                    Some(end) => {
                        proof {
                            lemma_first_ci_bound(cs@, close@, gt + 1);
                        }
                        Some((gt + 1, end))
                    },
                    None => None,
                }
            },
            None => None,
        },
        None => None,
    }
}

/// Extracts the content of the first `<pre>…</pre>` block of an HTML answer,
/// without its tags; the whole answer without tags when there is none.
pub fn extract_pre(html: &str) -> (r: String)
    ensures
        r@ == spec_extract_pre(html@),
{
    let cs = chars_of(html);
    match pre_bounds(&cs) {
        Some((a, b)) => {
            let mut inner: Vec<char> = Vec::new();
            let mut i: usize = a;
            while i < b
                invariant
                    a <= i <= b <= cs@.len(),
                    inner@ == cs@.subrange(a as int, i as int),
                decreases b - i,
            {
                inner.push(cs[i]);
                i = i + 1;
                assert(inner@ =~= cs@.subrange(a as int, i as int));
            }
            let out = strip_html_chars(inner.as_slice());
            string_from_chars(&out)
        },
        None => strip_html(html),
    }
}

/// Removing the tags leaves no '<' or '>' (only the decoding of `&lt;` and
/// `&gt;` can bring them back).
pub proof fn lemma_untag_removes_brackets(s: Seq<char>)
    ensures
        forall|i: int| 0 <= i < untag(s).0.len() ==> (#[trigger] untag(s).0[i]) != '<' && untag(s).0[i] != '>',
    decreases s.len(),
{
    if s.len() > 0 {
        lemma_untag_removes_brackets(s.drop_last());
        let prev = untag(s.drop_last()).0;
        let cur = untag(s).0;
        assert forall|i: int| 0 <= i < cur.len() implies (#[trigger] cur[i]) != '<' && cur[i] != '>' by {
            if i < prev.len() {
                assert(cur[i] == prev[i]);
            }
        }
    }
}


// ─── Text traceroutes ─────────────────────────────────────────────────────────

/// A hop of a text traceroute (BSD/Linux format), as written: its TTL, the
/// host that answered (`None` for `* * *`) and the tokens written just before
/// a "ms" (the round-trip times, still as text).
#[derive(Debug)]
pub struct TraceHop {
    pub ttl: u8,
    pub host: Option<String>,
    pub rtt_tokens: Vec<String>,
}

/// `t` without its trailing commas.
pub open spec fn trim_commas(t: Seq<char>) -> Seq<char>
    decreases t.len(),
{
    if t.len() > 0 && t.last() == ',' {
        trim_commas(t.drop_last())
    } else {
        t
    }
}

/// Index of the first token from `j` on that ends with ')' (the end of a
/// parenthesised address), or the number of tokens.
pub open spec fn group_end(rem: Seq<Seq<char>>, j: int) -> int
    decreases rem.len() - j,
{
    if j < 0 || j >= rem.len() {
        rem.len() as int
    } else if rem[j].len() > 0 && rem[j].last() == ')' {
        j
    } else {
        group_end(rem, j + 1)
    }
}

/// A parenthesised group ends at or after its first token, and within the tokens.
pub proof fn lemma_group_end_bounds(rem: Seq<Seq<char>>, j: int)
    requires
        0 <= j,
    ensures
        j <= group_end(rem, j) <= rem.len() || j > rem.len(),
    decreases rem.len() - j,
{
    if j < rem.len() && !(rem[j].len() > 0 && rem[j].last() == ')') {
        lemma_group_end_bounds(rem, j + 1);
    }
}

/// The round-trip-time tokens among the tokens `rem` that follow the host,
/// from index `i`: a parenthesised address and `*` are skipped; a token
/// followed by "ms" is a time (without its trailing commas), and the "ms" is
/// passed over with it.
pub open spec fn rtt_tokens(rem: Seq<Seq<char>>, i: int) -> Seq<Seq<char>>
    decreases rem.len() + 1 - i,
{
    if i < 0 || i >= rem.len() {
        Seq::empty()
    } else if rem[i].len() > 0 && rem[i][0] == '(' {
        proof {
            lemma_group_end_bounds(rem, i);
        }
        rtt_tokens(rem, group_end(rem, i) + 1)
    } else if rem[i] == seq!['*'] {
        rtt_tokens(rem, i + 1)
    } else if i + 1 < rem.len() && rem[i + 1] == seq!['m', 's'] {
        seq![trim_commas(rem[i])] + rtt_tokens(rem, i + 2)
    } else {
        rtt_tokens(rem, i + 1)
    }
}

/// What one line of a text traceroute gives: nothing unless it starts with a
/// TTL (a number up to 255) followed by a host or `*`.
pub open spec fn trace_line(line: Seq<char>) -> Option<(u8, Option<Seq<char>>, Seq<Seq<char>>)> {
    let ws = words_of(line);
    if ws.len() < 2 {
        None
    } else {
        match parse_unsigned_spec(ws[0], 255) {
            None => None,
            Some(t) => if ws[1] == seq!['*'] {
                Some((t as u8, None, Seq::empty()))
            } else {
                Some((t as u8, Some(trim_commas(ws[1])), rtt_tokens(ws.subrange(2, ws.len() as int), 0)))
            },
        }
    }
}

/// The hops that the lines `lines` give, in order.
pub open spec fn trace_lines(lines: Seq<Seq<char>>) -> Seq<(u8, Option<Seq<char>>, Seq<Seq<char>>)>
    decreases lines.len(),
{
    if lines.len() == 0 {
        Seq::empty()
    } else {
        let prev = trace_lines(lines.drop_last());
        match trace_line(lines.last()) {
            Some(h) => prev.push(h),
            None => prev,
        }
    }
}

/// The plain values of a hop.
pub open spec fn trace_hop_view(h: TraceHop) -> (u8, Option<Seq<char>>, Seq<Seq<char>>) {
    (
        h.ttl,
        match h.host {
            Some(s) => Some(s@),
            None => None,
        },
        h.rtt_tokens@.map_values(|t: String| t@),
    )
}

fn trim_commas_exec(t: &Vec<char>) -> (r: String)
    ensures
        r@ == trim_commas(t@),
{
    let mut n: usize = t.len();
    assert(t@.subrange(0, n as int) =~= t@);
    while n > 0 && t[n - 1] == ','
        invariant
            n <= t@.len(),
            trim_commas(t@) == trim_commas(t@.subrange(0, n as int)),
        decreases n,
    {
        assert(t@.subrange(0, n as int).drop_last() =~= t@.subrange(0, n - 1));
        n = n - 1;
    }
    let mut out: Vec<char> = Vec::new();
    let mut k: usize = 0;
    while k < n
        invariant
            n <= t@.len(),
            k <= n,
            out@ == t@.subrange(0, k as int),
        decreases n - k,
    {
        out.push(t[k]);
        k = k + 1;
        assert(out@ =~= t@.subrange(0, k as int));
    }
    assert(t@.subrange(0, n as int) =~= out@);
    string_from_chars(&out)
}

fn is_star(w: &Vec<char>) -> (r: bool)
    ensures
        r == (w@ == seq!['*']),
{
    let r = w.len() == 1 && w[0] == '*';
    if r {
        assert(w@ =~= seq!['*']);
    }
    r
}

fn is_ms(w: &Vec<char>) -> (r: bool)
    ensures
        r == (w@ == seq!['m', 's']),
{
    let r = w.len() == 2 && w[0] == 'm' && w[1] == 's';
    if r {
        assert(w@ =~= seq!['m', 's']);
    }
    r
}

/// The time tokens of the words `ws` after the TTL and the host.
fn rtts_after_host(ws: &Vec<Vec<char>>) -> (r: Vec<String>)
    requires
        ws@.len() >= 2,
    ensures
        r@.map_values(|t: String| t@) == rtt_tokens(
            ws@.map_values(|w: Vec<char>| w@).subrange(2, ws@.len() as int),
            0,
        ),
{
    let ghost rem = ws@.map_values(|w: Vec<char>| w@).subrange(2, ws@.len() as int);
    let mut r: Vec<String> = Vec::new();
    let mut i: usize = 2;
    while i < ws.len()
        invariant
            2 <= i,
            ws@.len() >= 2,
            rem == ws@.map_values(|w: Vec<char>| w@).subrange(2, ws@.len() as int),
            i <= ws@.len(),
            r@.map_values(|t: String| t@) + rtt_tokens(rem, i - 2) == rtt_tokens(rem, 0),
        decreases ws@.len() - i,
    {
        let ghost k: int = i - 2;
        let ghost before = r@.map_values(|t: String| t@);
        assert(rem[k] == ws@[i as int]@);
        let w = &ws[i];
        if w.len() > 0 && w[0] == '(' {
            let mut j: usize = i;
            while j < ws.len() && !(ws[j].len() > 0 && ws[j][ws[j].len() - 1] == ')')
                invariant
                    2 <= i <= j <= ws@.len(),
                    k == i - 2,
                    rem == ws@.map_values(|w: Vec<char>| w@).subrange(2, ws@.len() as int),
                    group_end(rem, k) == group_end(rem, j - 2),
                decreases ws@.len() - j,
            {
                assert(rem[j - 2] == ws@[j as int]@);
                j = j + 1;
            }
            if j < ws.len() {
                assert(rem[j - 2] == ws@[j as int]@);
                assert(group_end(rem, k) == j - 2);
                i = j + 1;
            } else {
                assert(group_end(rem, k) == rem.len());
                assert(rtt_tokens(rem, rem.len() + 1int) =~= Seq::<Seq<char>>::empty());
                assert(rtt_tokens(rem, rem.len() as int) =~= Seq::<Seq<char>>::empty());
                i = j;
            }
        } else if is_star(w) {
            i = i + 1;
        } else if i + 1 < ws.len() && is_ms(&ws[i + 1]) {
            assert(rem[k + 1] == ws@[i + 1]@);
            let t = trim_commas_exec(w);
            r.push(t);
            assert(r@.map_values(|t: String| t@) =~= before.push(trim_commas(rem[k])));
            assert(before.push(trim_commas(rem[k])) + rtt_tokens(rem, k + 2) =~= before + (seq![trim_commas(rem[k])]
                + rtt_tokens(rem, k + 2)));
            i = i + 2;
        } else {
            if i + 1 < ws.len() {
                assert(rem[k + 1] == ws@[i + 1]@);
            }
            i = i + 1;
        }
    }
    assert(rtt_tokens(rem, i - 2) =~= Seq::<Seq<char>>::empty());
    assert(r@.map_values(|t: String| t@) =~= rtt_tokens(rem, 0));
    r
}

/// The hop that one line of a text traceroute gives, if any.
fn trace_line_exec(line: &Vec<char>) -> (r: Option<TraceHop>)
    ensures
        match trace_line(line@) {
            Some(h) => r matches Some(x) && trace_hop_view(x) == h,
            None => r is None,
        },
{
    let ws = words(line.as_slice());
    let ghost wv = ws@.map_values(|w: Vec<char>| w@);
    if ws.len() < 2 {
        return None;
    }
    assert(wv[0] == ws@[0]@ && wv[1] == ws@[1]@);
    let ttl = match parse_unsigned(ws[0].as_slice(), 255) {
        Some(t) => t as u8,
        None => return None,
    };
    if is_star(&ws[1]) {
        let h = TraceHop { ttl, host: None, rtt_tokens: Vec::new() };
        assert(trace_hop_view(h).2 =~= Seq::<Seq<char>>::empty());
        return Some(h);
    }
    let host = trim_commas_exec(&ws[1]);
    let tokens = rtts_after_host(&ws);
    Some(TraceHop { ttl, host: Some(host), rtt_tokens: tokens })
}

/// Reads the text output of a traceroute (BSD/Linux format):
///
/// ```text
///  1  router.example.com (192.168.1.1)  0.5 ms  0.4 ms  0.5 ms
///  2  * * *
///  3  10.0.0.1  1.2 ms
/// ```
///
/// One hop per line that starts with a TTL and a host (or `*`); other lines
/// are skipped.
pub fn parse_traceroute(text: &str) -> (r: Vec<TraceHop>)
    ensures
        r@.map_values(|h: TraceHop| trace_hop_view(h)) == trace_lines(split_at_char(text@, '\n')),
{
    let cs = chars_of(text);
    let lines = split_chars(cs.as_slice(), '\n');
    let ghost lv = lines@.map_values(|v: Vec<char>| v@);
    let mut r: Vec<TraceHop> = Vec::new();
    let mut i: usize = 0;
    while i < lines.len()
        invariant
            i <= lines@.len(),
            lv == lines@.map_values(|v: Vec<char>| v@),
            r@.map_values(|h: TraceHop| trace_hop_view(h)) == trace_lines(lv.subrange(0, i as int)),
        decreases lines@.len() - i,
    {
        proof {
            assert(lv.subrange(0, i + 1).drop_last() =~= lv.subrange(0, i as int));
            assert(lv[i as int] == lines@[i as int]@);
        }
        let ghost before = r@.map_values(|h: TraceHop| trace_hop_view(h));
        match trace_line_exec(&lines[i]) {
            Some(h) => {
                r.push(h);
                assert(r@.map_values(|h: TraceHop| trace_hop_view(h)) =~= before.push(
                    trace_line(lv[i as int]).unwrap(),
                ));
            },
            None => {},
        }
        i = i + 1;
    }
    assert(lv.subrange(0, lv.len() as int) =~= lv);
    r
}

} // verus!
