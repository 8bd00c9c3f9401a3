//! Text layout of the reports: category tags and word wrapping.

use vstd::prelude::*;
use crate::text::{chars_of, is_white, string_from_chars, utf8_len, utf8_width, white};
use crate::types::FindingCategory;

verus! {

/// The tag shown before a finding of category `cat`.
pub open spec fn spec_category_label(cat: FindingCategory) -> &'static str {
    match cat {
        FindingCategory::PacketLoss => "PERTE",
        FindingCategory::HighLatency => "LATENCE",
        FindingCategory::Jitter => "JITTER",
        FindingCategory::Bufferbloat => "BUFFERBLOAT",
        FindingCategory::RoutingAnomaly => "ROUTAGE",
        FindingCategory::PeeringCongestion => "PEERING",
        FindingCategory::LocalIssue => "LOCAL",
        FindingCategory::IcmpRateLimit => "INFO",
        FindingCategory::PhysicalLatency => "INFO",
    }
}

/// The tag shown before a finding.
pub fn category_label(cat: FindingCategory) -> (r: &'static str)
    ensures
        r == spec_category_label(cat),
{
    match cat {
        FindingCategory::PacketLoss => "PERTE",
        FindingCategory::HighLatency => "LATENCE",
        FindingCategory::Jitter => "JITTER",
        FindingCategory::Bufferbloat => "BUFFERBLOAT",
        FindingCategory::RoutingAnomaly => "ROUTAGE",
        FindingCategory::PeeringCongestion => "PEERING",
        FindingCategory::LocalIssue => "LOCAL",
        FindingCategory::IcmpRateLimit => "INFO",
        FindingCategory::PhysicalLatency => "INFO",
    }
}

/// The words of `s`: its maximal runs of non-white characters, in order.
pub open spec fn words_of(s: Seq<char>) -> Seq<Seq<char>>
    decreases s.len(),
{
    if s.len() == 0 {
        Seq::empty()
    } else {
        let prev = words_of(s.drop_last());
        let c = s.last();
        if is_white(c) {
            prev
        } else if s.len() >= 2 && !is_white(s[s.len() - 2]) {
            prev.update(prev.len() - 1, prev.last().push(c))
        } else {
            prev.push(seq![c])
        }
    }
}

/// Lines completed and line in progress after laying out `words`.
pub open spec fn layout(words: Seq<Seq<char>>, width: int) -> (Seq<Seq<char>>, Seq<char>)
    decreases words.len(),
{
    if words.len() == 0 {
        (Seq::empty(), Seq::empty())
    } else {
        let (lines, cur) = layout(words.drop_last(), width);
        let w = words.last();
        let (lines2, cur2) = if utf8_len(cur) + utf8_len(w) + 1 > width && cur.len() > 0 {
            (lines.push(cur), Seq::<char>::empty())
        } else {
            (lines, cur)
        };
        (lines2, if cur2.len() > 0 { cur2 + seq![' '] + w } else { w })
    }
}

/// `text` cut into lines of at most `width` bytes where possible: words are
/// separated by one space and a word longer than the width stands alone.
pub open spec fn spec_wrap_text(text: Seq<char>, width: int) -> Seq<Seq<char>> {
    let (lines, cur) = layout(words_of(text), width);
    if cur.len() > 0 {
        lines.push(cur)
    } else {
        lines
    }
}

proof fn lemma_words_nonempty(s: Seq<char>)
    ensures
        forall|i: int| 0 <= i < words_of(s).len() ==> (#[trigger] words_of(s)[i]).len() > 0,
        s.len() > 0 && !is_white(s.last()) ==> words_of(s).len() > 0,
    decreases s.len(),
{
    if s.len() > 0 {
        lemma_words_nonempty(s.drop_last());
        let prev = words_of(s.drop_last());
        let cur = words_of(s);
        if !is_white(s.last()) {
            if s.len() >= 2 && !is_white(s[s.len() - 2]) {
                assert(s.drop_last().last() == s[s.len() - 2]);
                assert forall|i: int| 0 <= i < cur.len() implies (#[trigger] cur[i]).len() > 0 by {
                    if i < cur.len() - 1 {
                        assert(cur[i] == prev[i]);
                    }
                }
            } else {
                assert forall|i: int| 0 <= i < cur.len() implies (#[trigger] cur[i]).len() > 0 by {
                    if i < cur.len() - 1 {
                        assert(cur[i] == prev[i]);
                    }
                }
            }
        }
    }
}

/// The words of `text`.
pub(crate) fn words(text: &[char]) -> (r: Vec<Vec<char>>)
    ensures
        r@.map_values(|w: Vec<char>| w@) == words_of(text@),
{
    let mut r: Vec<Vec<char>> = Vec::new();
    let mut i: usize = 0;
    while i < text.len()
        invariant
            i <= text@.len(),
            r@.map_values(|w: Vec<char>| w@) == words_of(text@.subrange(0, i as int)),
        decreases text@.len() - i,
    {
        let ghost pre = text@.subrange(0, i + 1);
        proof {
            assert(pre.drop_last() =~= text@.subrange(0, i as int));
            assert(pre.last() == text@[i as int]);
            if i >= 1 {
                assert(pre[pre.len() - 2] == text@[i - 1]);
                lemma_words_nonempty(text@.subrange(0, i as int));
                assert(text@.subrange(0, i as int).last() == text@[i - 1]);
            }
        }
        let ghost before = r@.map_values(|w: Vec<char>| w@);
        let c = text[i];
        if !white(c) {
            if i >= 1 && !white(text[i - 1]) {
                let mut w = r.pop().unwrap();
                w.push(c);
                r.push(w);
                assert(r@.map_values(|w: Vec<char>| w@) =~= before.update(before.len() - 1, before.last().push(c)));
            } else {
                let mut w: Vec<char> = Vec::new();
                w.push(c);
                r.push(w);
                assert(r@.map_values(|w: Vec<char>| w@) =~= before.push(seq![c]));
            }
        }
        i = i + 1;
    }
    assert(text@.subrange(0, text@.len() as int) =~= text@);
    r
}

proof fn lemma_utf8_len_concat(a: Seq<char>, b: Seq<char>)
    ensures
        utf8_len(a + b) == utf8_len(a) + utf8_len(b),
    decreases b.len(),
{
    if b.len() > 0 {
        lemma_utf8_len_concat(a, b.drop_last());
        assert((a + b).drop_last() =~= a + b.drop_last());
    } else {
        assert(a + b =~= a);
    }
}

/// `a` capped at `cap`.
pub open spec fn capped(a: int, cap: int) -> int {
    if a < cap {
        a
    } else {
        cap
    }
}

fn utf8_len_capped(s: &Vec<char>, cap: u128) -> (n: u128)
    ensures
        n == capped(utf8_len(s@) as int, cap as int),
{
    let mut n: u128 = 0;
    let mut i: usize = 0;
    while i < s.len()
        invariant
            i <= s@.len(),
            n == capped(utf8_len(s@.subrange(0, i as int)) as int, cap as int),
        decreases s@.len() - i,
    {
        proof {
            assert(s@.subrange(0, i + 1).drop_last() =~= s@.subrange(0, i as int));
        }
        let c = s[i];
        let w: u128 = if (c as u32) < 0x80 {
            1
        } else if (c as u32) < 0x800 {
            2
        } else if (c as u32) < 0x10000 {
            3
        } else {
            4
        };
        assert(w == utf8_width(c));
        n = if n >= cap || w >= cap - n {
            cap
        } else {
            n + w
        };
        i = i + 1;
    }
    proof {
        assert(s@.subrange(0, s@.len() as int) =~= s@);
    }
    n
}

/// Cuts `text` into lines of at most `width` bytes where possible, breaking
/// between words (runs of white space become one space).
pub fn wrap_text(text: &str, width: usize) -> (r: Vec<String>)
    ensures
        r@.map_values(|l: String| l@) == spec_wrap_text(text@, width as int),
{
    let cs = chars_of(text);
    let ws = words(cs.as_slice());
    let ghost wv = ws@.map_values(|w: Vec<char>| w@);
    let cap: u128 = width as u128 + 1;
    let mut lines: Vec<String> = Vec::new();
    let mut cur: Vec<char> = Vec::new();
    let mut cur_len: u128 = 0;
    let mut i: usize = 0;
    proof {
        assert(wv.subrange(0, 0) =~= Seq::<Seq<char>>::empty());
    }
    while i < ws.len()
        invariant
            i <= ws@.len(),
            wv == ws@.map_values(|w: Vec<char>| w@),
            wv == words_of(text@),
            cap == width + 1,
            cur_len == capped(utf8_len(cur@) as int, cap as int),
            (lines@.map_values(|l: String| l@), cur@) == layout(wv.subrange(0, i as int), width as int),
        decreases ws@.len() - i,
    {
        proof {
            assert(wv.subrange(0, i + 1).drop_last() =~= wv.subrange(0, i as int));
            assert(wv.subrange(0, i + 1).last() == ws@[i as int]@);
        }
        let w = &ws[i];
        let w_len = utf8_len_capped(w, cap);
        proof {
            assert((utf8_len(cur@) + utf8_len(w@) + 1 > width) == (cur_len + w_len + 1 > width));
        }
        if cur_len + w_len + 1 > width as u128 && cur.len() > 0 {
            let ghost before = lines@.map_values(|l: String| l@);
            lines.push(string_from_chars(&cur));
            assert(lines@.map_values(|l: String| l@) =~= before.push(cur@));
            cur = Vec::new();
            cur_len = 0;
        }
        let ghost cur2 = cur@;
        if cur.len() > 0 {
            cur.push(' ');
            cur_len = if cur_len + 1 >= cap { cap } else { cur_len + 1 };
        }
        let ghost mid = cur@;
        let mut k: usize = 0;
        while k < w.len()
            invariant
                k <= w@.len(),
                cur@ == mid + w@.subrange(0, k as int),
            decreases w@.len() - k,
        {
            cur.push(w[k]);
            k = k + 1;
            assert(cur@ =~= mid + w@.subrange(0, k as int));
        }
        assert(w@.subrange(0, w@.len() as int) =~= w@);
        proof {
            lemma_utf8_len_concat(mid, w@);
            if cur2.len() > 0 {
                lemma_utf8_len_concat(cur2, seq![' ']);
                assert(utf8_len(seq![' ']) == 1) by {
                    assert(seq![' '].drop_last() =~= Seq::<char>::empty());
                    assert((' ' as u32) == 32);
                    assert(utf8_width(' ') == 1);
                    assert(seq![' '].last() == ' ');
                    assert(utf8_len(Seq::<char>::empty()) == 0);
                    assert(utf8_len(seq![' ']) == utf8_len(seq![' '].drop_last()) + utf8_width(seq![' '].last()));
                }
                assert(mid == cur2 + seq![' ']);
                assert(utf8_len(mid) == utf8_len(cur2) + 1);
                assert(cur@ =~= cur2 + seq![' '] + w@);
            } else {
                assert(mid =~= Seq::<char>::empty());
                assert(cur@ =~= w@);
            }
        }
        cur_len = if cur_len >= cap || w_len >= cap - cur_len {
            cap
        } else {
            cur_len + w_len
        };
        i = i + 1;
    }
    assert(wv.subrange(0, wv.len() as int) =~= wv);
    if cur.len() > 0 {
        let ghost before = lines@.map_values(|l: String| l@);
        lines.push(string_from_chars(&cur));
        assert(lines@.map_values(|l: String| l@) =~= before.push(cur@));
    }
    lines
}

} // verus!
