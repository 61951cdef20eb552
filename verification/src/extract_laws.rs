//! Laws of the reference extraction.
//!
//! The central facts proved here: a reference standing anywhere in a text
//! is always captured — no earlier match of the same family can reach
//! into it — and the two families are extracted independently, so a
//! number referenced through both is emitted twice.

use vstd::prelude::*;

use crate::extract::MatchKind;
use crate::extract::digit_run_end;
use crate::extract::extracted_refs;
use crate::extract::find_kw;
use crate::extract::github_w;
use crate::extract::http_w;
use crate::extract::https_w;
use crate::extract::is_ascii_digit;
use crate::extract::issues_w;
use crate::extract::kw_digits_start;
use crate::extract::kw_hit;
use crate::extract::kw_words;
use crate::extract::lemma_digit_run;
use crate::extract::lemma_find_kw_skip;
use crate::extract::lemma_find_kw_some;
use crate::extract::lemma_nonslash_run;
use crate::extract::lemma_ref_digits_start_props;
use crate::extract::lower;
use crate::extract::nonslash_end;
use crate::extract::proto_end;
use crate::extract::ref_digits_start;
use crate::extract::refs_from;
use crate::extract::url_digits_start;
use crate::extract::word_at;

verus! {

/// Lower-cased code points that can begin a keyword reference:
/// `c`, `f`, `r`, `#`.
spec fn is_kw_lead_code(u: u32) -> bool {
    u == 99 || u == 102 || u == 114 || u == 35
}

/// A keyword reference can only begin on `c`, `f`, `r` or `#`.
proof fn lemma_kw_lead(s: Seq<char>, q: int)
    requires
        kw_digits_start(s, q) is Some,
    ensures
        is_kw_lead_code(lower(s[q])),
{
    lemma_find_kw_some(s, q, kw_words());
    let j = choose|j: int|
        0 <= j < kw_words().len() && kw_hit(s, q, #[trigger] kw_words()[j])
            && kw_digits_start(s, q)->Some_0 == q + kw_words()[j].len();
    assert(word_at(s, q, kw_words()[j], true));
    assert(lower(s[q]) == lower(kw_words()[j][0]));
    assert(is_kw_lead_code(lower(kw_words()[j][0]))) by {
        if j == 0 {
            assert(kw_words()[0][0] == 'c');
        } else if j == 1 {
            assert(kw_words()[1][0] == 'c');
        } else if j == 2 {
            assert(kw_words()[2][0] == 'c');
        } else if j == 3 {
            assert(kw_words()[3][0] == 'f');
        } else if j == 4 {
            assert(kw_words()[4][0] == 'f');
        } else if j == 5 {
            assert(kw_words()[5][0] == 'f');
        } else if j == 6 {
            assert(kw_words()[6][0] == 'r');
        } else if j == 7 {
            assert(kw_words()[7][0] == 'r');
        } else if j == 8 {
            assert(kw_words()[8][0] == 'r');
        } else {
            assert(kw_words()[9][0] == '#');
        }
    }
}

/// Inside a keyword — after its first character and before its digits —
/// no character can begin a keyword reference.
proof fn lemma_kw_interior(s: Seq<char>, p: int, dp: int)
    requires
        kw_digits_start(s, p) == Some(dp),
    ensures
        forall|x: int| p < x < dp ==> !is_kw_lead_code(lower(s[x])),
{
    lemma_find_kw_some(s, p, kw_words());
    let j = choose|j: int|
        0 <= j < kw_words().len() && kw_hit(s, p, #[trigger] kw_words()[j]) && dp == p
            + kw_words()[j].len();
    let w = kw_words()[j];
    assert(word_at(s, p, w, true));
    assert forall|x: int| p < x < dp implies !is_kw_lead_code(lower(s[x])) by {
        let k = x - p;
        assert(lower(s[p + k]) == lower(w[k]));
        assert(!is_kw_lead_code(lower(w[k]))) by {
            lemma_kw_words_tails();
        }
    }
}

/// Every character of every keyword after the first is one of the
/// lower-case letters `l o s e d i x v`, none of which can begin a
/// keyword reference.
proof fn lemma_kw_words_tails()
    ensures
        forall|j: int, k: int|
            0 <= j < kw_words().len() && 1 <= k < kw_words()[j].len() ==> !is_kw_lead_code(
                lower(#[trigger] kw_words()[j][k]),
            ),
{
    assert forall|j: int, k: int|
        0 <= j < kw_words().len() && 1 <= k < kw_words()[j].len() implies !is_kw_lead_code(
        lower(#[trigger] kw_words()[j][k]),
    ) by {
        if j == 0 {
            assert(kw_words()[0] =~= seq!['c', 'l', 'o', 's', 'e', 's']);
        } else if j == 1 {
            assert(kw_words()[1] =~= seq!['c', 'l', 'o', 's', 'e', 'd']);
        } else if j == 2 {
            assert(kw_words()[2] =~= seq!['c', 'l', 'o', 's', 'e']);
        } else if j == 3 {
            assert(kw_words()[3] =~= seq!['f', 'i', 'x', 'e', 's']);
        } else if j == 4 {
            assert(kw_words()[4] =~= seq!['f', 'i', 'x', 'e', 'd']);
        } else if j == 5 {
            assert(kw_words()[5] =~= seq!['f', 'i', 'x']);
        } else if j == 6 {
            assert(kw_words()[6] =~= seq!['r', 'e', 's', 'o', 'l', 'v', 'e', 's']);
        } else if j == 7 {
            assert(kw_words()[7] =~= seq!['r', 'e', 's', 'o', 'l', 'v', 'e', 'd']);
        } else if j == 8 {
            assert(kw_words()[8] =~= seq!['r', 'e', 's', 'o', 'l', 'v', 'e']);
        } else {
            assert(kw_words()[9] =~= seq!['#']);
        }
    }
}

/// A keyword match is consumed before the next one can begin: the digit
/// run of a match at `p` ends at or before any later match position `q`.
proof fn lemma_kw_no_nest(s: Seq<char>, p: int, dp: int, q: int)
    requires
        p < q,
        kw_digits_start(s, p) == Some(dp),
        kw_digits_start(s, q) is Some,
    ensures
        digit_run_end(s, dp) <= q,
{
    lemma_ref_digits_start_props(s, p, MatchKind::Keyword);
    lemma_digit_run(s, dp);
    lemma_kw_lead(s, q);
    let e = digit_run_end(s, dp);
    if e > q {
        if q < dp {
            lemma_kw_interior(s, p, dp);
            assert(false);
        } else {
            assert(is_ascii_digit(s[q]));
            assert(false);
        }
    }
}

/// When a reference of kind `kind` stands at `p`, its digit run ends at
/// or before `bound`.
pub open spec fn match_end_within(s: Seq<char>, p: int, kind: MatchKind, bound: int) -> bool {
    match ref_digits_start(s, p, kind) {
        Some(d) => digit_run_end(s, d) <= bound,
        None => true,
    }
}

/// The scan from `j` captures the digit run of any reference at `q >= j`,
/// provided no reference before `q` reaches into it.
proof fn lemma_scan_finds(s: Seq<char>, j: int, q: int, dq: int, kind: MatchKind)
    requires
        0 <= j <= q,
        ref_digits_start(s, q, kind) == Some(dq),
        forall|p: int| j <= p < q ==> #[trigger] match_end_within(s, p, kind, q),
    ensures
        refs_from(s, j, kind).contains(s.subrange(dq, digit_run_end(s, dq))),
    decreases q - j,
{
    lemma_ref_digits_start_props(s, q, kind);
    lemma_digit_run(s, dq);
    let target = s.subrange(dq, digit_run_end(s, dq));
    assert(j < s.len());
    match ref_digits_start(s, j, kind) {
        Some(d) => {
            let e = digit_run_end(s, d);
            lemma_ref_digits_start_props(s, j, kind);
            lemma_digit_run(s, d);
            if j == q {
                assert(refs_from(s, j, kind)[0] == target);
                assert(refs_from(s, j, kind).contains(target));
            } else {
                assert(match_end_within(s, j, kind, q));
                assert(e <= q);
                assert forall|p: int| e <= p < q implies #[trigger] match_end_within(
                    s,
                    p,
                    kind,
                    q,
                ) by {
                    assert(j <= p < q);
                }
                lemma_scan_finds(s, e, q, dq, kind);
                let idx = choose|idx: int|
                    0 <= idx < refs_from(s, e, kind).len() && refs_from(s, e, kind)[idx] == target;
                assert(refs_from(s, j, kind)[idx + 1] == target);
                assert(refs_from(s, j, kind).contains(target));
            }
        }
        None => {
            assert(j != q);
            lemma_scan_finds(s, j + 1, q, dq, kind);
            assert(refs_from(s, j, kind) == refs_from(s, j + 1, kind));
        }
    }
}

/// The digit run of a keyword reference standing anywhere in `s` is
/// always among the extracted references.
pub proof fn lemma_keyword_capture(s: Seq<char>, q: int, dq: int)
    requires
        0 <= q,
        kw_digits_start(s, q) == Some(dq),
    ensures
        refs_from(s, 0, MatchKind::Keyword).contains(s.subrange(dq, digit_run_end(s, dq))),
        extracted_refs(s).contains(s.subrange(dq, digit_run_end(s, dq))),
{
    assert forall|p: int| 0 <= p < q implies #[trigger] match_end_within(
        s,
        p,
        MatchKind::Keyword,
        q,
    ) by {
        match kw_digits_start(s, p) {
            Some(d) => {
                lemma_kw_no_nest(s, p, d, q);
            }
            None => {}
        }
    }
    lemma_scan_finds(s, 0, q, dq, MatchKind::Keyword);
    let target = s.subrange(dq, digit_run_end(s, dq));
    let idx = choose|idx: int|
        0 <= idx < refs_from(s, 0, MatchKind::Keyword).len() && refs_from(
            s,
            0,
            MatchKind::Keyword,
        )[idx] == target;
    assert(extracted_refs(s)[idx] == target);
}

/// Character-level structure of a full issue URL standing at `p`.
/// `g` is where `github.com/` begins, `b` and `c` are where the owner
/// and repository segments end, `d0` is where the digit run begins.
spec fn url_parts(s: Seq<char>, p: int) -> (int, int, int) {
    let g = if word_at(s, p, http_w(), false) {
        p + 7
    } else {
        p + 8
    };
    let b = nonslash_end(s, g + 11);
    let c = nonslash_end(s, b + 1);
    (g, b, c)
}

/// Structure of a matched issue URL: the protocol and host words stand
/// where they must, the two segments are non-empty and slash-free, and
/// the digit run begins right after `/issues/`.
proof fn lemma_url_shape(s: Seq<char>, p: int, d0: int)
    requires
        url_digits_start(s, p) == Some(d0),
    ensures
        ({
            let (g, b, c) = url_parts(s, p);
            &&& word_at(s, p, http_w(), false) || word_at(s, p, https_w(), false)
            &&& proto_end(s, p) == Some(g)
            &&& word_at(s, g, github_w(), false)
            &&& g + 11 < b
            &&& b < s.len()
            &&& s[b] == '/'
            &&& forall|x: int| g + 11 <= x < b ==> s[x] != '/'
            &&& b + 1 < c
            &&& c < s.len()
            &&& s[c] == '/'
            &&& forall|x: int| b + 1 <= x < c ==> s[x] != '/'
            &&& word_at(s, c, issues_w(), false)
            &&& d0 == c + 8
            &&& d0 < s.len()
            &&& is_ascii_digit(s[d0])
        }),
{
    let (g, b, c) = url_parts(s, p);
    assert(proto_end(s, p) == Some(g));
    assert(word_at(s, g, github_w(), false));
    let a = g + 11;
    assert(a <= s.len());
    lemma_nonslash_run(s, a);
    assert(b + 1 < c);
    if b + 1 > s.len() {
        assert(nonslash_end(s, b + 1) == b + 1);
        assert(false);
    }
    lemma_nonslash_run(s, b + 1);
    assert(c > b + 1 ==> b + 1 < s.len());
    assert(s[b] == '/');
    assert(s[c] == '/') by {
        assert(word_at(s, c, issues_w(), false));
        assert(s[c + 0] == issues_w()[0]);
    }
}

/// Within a matched issue URL, a slash stands only at the three
/// separators: after the owner segment, after the repository segment,
/// and at the end of `/issues/`.
proof fn lemma_url_slashes(s: Seq<char>, p: int, d0: int)
    requires
        url_digits_start(s, p) == Some(d0),
    ensures
        ({
            let (g, b, c) = url_parts(s, p);
            forall|x: int|
                g + 11 <= x < digit_run_end(s, d0) && s[x] == '/' ==> x == b || x == c || x == c + 7
        }),
{
    let (g, b, c) = url_parts(s, p);
    lemma_url_shape(s, p, d0);
    lemma_digit_run(s, d0);
    let e = digit_run_end(s, d0);
    assert forall|x: int| g + 11 <= x < e && s[x] == '/' implies x == b || x == c || x == c
        + 7 by {
        if g + 11 <= x < b {
            assert(s[x] != '/');
        } else if x == b {
        } else if b + 1 <= x < c {
            assert(s[x] != '/');
        } else if c <= x < c + 8 {
            let k = x - c;
            assert(s[c + k] == issues_w()[k]);
            assert(issues_w()[1] == 'i' && issues_w()[2] == 's' && issues_w()[3] == 's'
                && issues_w()[4] == 'u' && issues_w()[5] == 'e' && issues_w()[6] == 's');
            assert(k == 0 || k == 7);
        } else {
            assert(d0 <= x < e);
            assert(is_ascii_digit(s[x]));
        }
    }
}

/// A URL match is consumed before the next one can begin: the digit run
/// of a match at `p` ends at or before any later match position `q`.
proof fn lemma_url_no_nest(s: Seq<char>, p: int, dp: int, q: int)
    requires
        p < q,
        url_digits_start(s, p) == Some(dp),
        url_digits_start(s, q) is Some,
    ensures
        digit_run_end(s, dp) <= q,
{
    lemma_url_shape(s, p, dp);
    lemma_url_slashes(s, p, dp);
    lemma_digit_run(s, dp);
    let (g, b, c) = url_parts(s, p);
    let e = digit_run_end(s, dp);
    if e > q {
        // The later match gives the protocol characters at `q`.
        assert(word_at(s, q, http_w(), false) || word_at(s, q, https_w(), false));
        assert(s[q] == 'h' && s[q + 1] == 't' && s[q + 2] == 't' && s[q + 3] == 'p') by {
            if word_at(s, q, http_w(), false) {
                assert(s[q + 0] == http_w()[0]);
                assert(s[q + 1] == http_w()[1]);
                assert(s[q + 2] == http_w()[2]);
                assert(s[q + 3] == http_w()[3]);
            } else {
                assert(s[q + 0] == https_w()[0]);
                assert(s[q + 1] == https_w()[1]);
                assert(s[q + 2] == https_w()[2]);
                assert(s[q + 3] == https_w()[3]);
            }
        }
        // And a double slash shortly after `q`.
        let x = if word_at(s, q, http_w(), false) {
            q + 5
        } else {
            q + 6
        };
        assert(s[x] == '/' && s[x + 1] == '/') by {
            if word_at(s, q, http_w(), false) {
                assert(s[q + 5] == http_w()[5]);
                assert(s[q + 6] == http_w()[6]);
            } else {
                assert(s[q + 6] == https_w()[6]);
                assert(s[q + 7] == https_w()[7]);
            }
        }
        if p < q < g {
            let k = q - p;
            assert(s[q] != 'h') by {
                if word_at(s, p, http_w(), false) {
                    assert(s[p + k] == http_w()[k]);
                } else {
                    assert(s[p + k] == https_w()[k]);
                }
            }
            assert(false);
        } else if g <= q < g + 11 {
            let k = q - g;
            assert(s[g + k] == github_w()[k]);
            if k == 3 {
                assert(s[g + 4] == github_w()[4]);
                assert(false);
            } else {
                assert(false);
            }
        } else if g + 11 <= q < b || b + 1 <= q < c {
            // Both protocol slashes fall inside the match at `p`, where
            // no two adjacent slashes exist.
            assert(g + 11 <= x && x + 1 < e);
            assert(x == b || x == c || x == c + 7);
            assert(x + 1 == b || x + 1 == c || x + 1 == c + 7);
            assert(false);
        } else if q == b {
            assert(s[b] == '/');
            assert(false);
        } else if c <= q < c + 8 {
            let k = q - c;
            assert(s[c + k] == issues_w()[k]);
            assert(false);
        } else {
            assert(dp <= q < e);
            assert(is_ascii_digit(s[q]));
            assert(false);
        }
    }
}

/// The digit run of an issue URL standing anywhere in `s` is always
/// among the extracted references.
pub proof fn lemma_url_capture(s: Seq<char>, q: int, dq: int)
    requires
        0 <= q,
        url_digits_start(s, q) == Some(dq),
    ensures
        refs_from(s, 0, MatchKind::Url).contains(s.subrange(dq, digit_run_end(s, dq))),
        extracted_refs(s).contains(s.subrange(dq, digit_run_end(s, dq))),
{
    assert forall|p: int| 0 <= p < q implies #[trigger] match_end_within(
        s,
        p,
        MatchKind::Url,
        q,
    ) by {
        match url_digits_start(s, p) {
            Some(d) => {
                lemma_url_no_nest(s, p, d, q);
            }
            None => {}
        }
    }
    lemma_scan_finds(s, 0, q, dq, MatchKind::Url);
    let target = s.subrange(dq, digit_run_end(s, dq));
    let idx = choose|idx: int|
        0 <= idx < refs_from(s, 0, MatchKind::Url).len() && refs_from(s, 0, MatchKind::Url)[idx]
            == target;
    assert(extracted_refs(s)[refs_from(s, 0, MatchKind::Keyword).len() + idx] == target);
}

/// A bare `#` immediately followed by a digit always begins a keyword
/// reference whose digit run starts right after the `#`.
pub proof fn lemma_hash_hit(s: Seq<char>, p: int)
    requires
        0 <= p,
        p + 1 < s.len(),
        s[p] == '#',
        is_ascii_digit(s[p + 1]),
    ensures
        kw_digits_start(s, p) == Some(p + 1),
{
    assert forall|j: int| 0 <= j < 9 implies !kw_hit(s, p, #[trigger] kw_words()[j]) by {
        let w = kw_words()[j];
        assert(lower(s[p]) == 35);
        if word_at(s, p, w, true) {
            assert(lower(s[p + 0]) == lower(w[0]));
            if j == 0 {
                assert(kw_words()[0][0] == 'c');
            } else if j == 1 {
                assert(kw_words()[1][0] == 'c');
            } else if j == 2 {
                assert(kw_words()[2][0] == 'c');
            } else if j == 3 {
                assert(kw_words()[3][0] == 'f');
            } else if j == 4 {
                assert(kw_words()[4][0] == 'f');
            } else if j == 5 {
                assert(kw_words()[5][0] == 'f');
            } else if j == 6 {
                assert(kw_words()[6][0] == 'r');
            } else if j == 7 {
                assert(kw_words()[7][0] == 'r');
            } else {
                assert(kw_words()[8][0] == 'r');
            }
            assert(false);
        }
    }
    lemma_find_kw_skip(s, p, kw_words(), 9);
    assert(kw_words().skip(9) =~= seq![seq!['#']]);
    assert(kw_hit(s, p, seq!['#'])) by {
        assert(lower(s[p]) == lower('#'));
    }
    assert(find_kw(s, p, kw_words().skip(9)) == Some(p + seq!['#'].len()));
}

/// A bare `#` followed by a complete digit run puts that run among the
/// extracted references.
pub proof fn lemma_hash_reference_extracted(text: Seq<char>, p: int)
    requires
        0 <= p,
        p + 1 < text.len(),
        text[p] == '#',
        is_ascii_digit(text[p + 1]),
    ensures
        extracted_refs(text).contains(text.subrange(p + 1, digit_run_end(text, p + 1))),
{
    lemma_hash_hit(text, p);
    lemma_keyword_capture(text, p, p + 1);
}

/// Any text containing `fixes #42` — with the digit run ending there —
/// references issue `42` at least once.
pub proof fn lemma_fixes_reference_extracted(text: Seq<char>, i: int)
    requires
        0 <= i,
        i + 9 <= text.len(),
        text.subrange(i, i + 9) == "fixes #42"@,
        i + 9 == text.len() || !is_ascii_digit(text[i + 9]),
    ensures
        extracted_refs(text).contains("42"@),
{
    reveal_strlit("fixes #42");
    reveal_strlit("42");
    assert(text[i + 6] == text.subrange(i, i + 9)[6]);
    assert(text[i + 7] == text.subrange(i, i + 9)[7]);
    assert(text[i + 8] == text.subrange(i, i + 9)[8]);
    assert(text[i + 6] == '#' && text[i + 7] == '4' && text[i + 8] == '2');
    assert(is_ascii_digit(text[i + 7]) && is_ascii_digit(text[i + 8]));
    assert(digit_run_end(text, i + 9) == i + 9);
    assert(digit_run_end(text, i + 8) == i + 9);
    assert(digit_run_end(text, i + 7) == i + 9);
    lemma_hash_reference_extracted(text, i + 6);
    assert(text.subrange(i + 7, i + 9) =~= "42"@);
}

/// Any text containing both `closes #7` and
/// `https://github.com/o/r/issues/7` — each digit run ending there —
/// references issue `7` at least twice: the families are extracted
/// independently and nothing is deduplicated.
pub proof fn lemma_cross_family_duplicate(text: Seq<char>, i: int, j: int)
    requires
        0 <= i,
        i + 9 <= text.len(),
        text.subrange(i, i + 9) == "closes #7"@,
        i + 9 == text.len() || !is_ascii_digit(text[i + 9]),
        0 <= j,
        j + 31 <= text.len(),
        text.subrange(j, j + 31) == "https://github.com/o/r/issues/7"@,
        j + 31 == text.len() || !is_ascii_digit(text[j + 31]),
    ensures
        exists|k1: int, k2: int|
            0 <= k1 < k2 < extracted_refs(text).len() && extracted_refs(text)[k1] == "7"@
                && extracted_refs(text)[k2] == "7"@,
{
    reveal_strlit("closes #7");
    reveal_strlit("https://github.com/o/r/issues/7");
    reveal_strlit("7");
    // The keyword occurrence.
    assert(text[i + 7] == text.subrange(i, i + 9)[7]);
    assert(text[i + 8] == text.subrange(i, i + 9)[8]);
    assert(text[i + 7] == '#' && text[i + 8] == '7');
    assert(is_ascii_digit(text[i + 8]));
    assert(digit_run_end(text, i + 9) == i + 9);
    assert(digit_run_end(text, i + 8) == i + 9);
    lemma_hash_hit(text, i + 7);
    lemma_keyword_capture(text, i + 7, i + 8);
    assert(text.subrange(i + 8, i + 9) =~= "7"@);
    assert(refs_from(text, 0, MatchKind::Keyword).contains("7"@));
    // The URL occurrence.
    assert forall|k: int| 0 <= k < 31 implies text[j + k] == #[trigger] text.subrange(
        j,
        j + 31,
    )[k] by {}
    assert(url_digits_start(text, j) == Some(j + 30)) by {
        assert(!word_at(text, j, http_w(), false)) by {
            assert(text[j + 4] == text.subrange(j, j + 31)[4]);
            assert(text[j + 4] == 's');
            if word_at(text, j, http_w(), false) {
                assert(text[j + 4] == http_w()[4]);
            }
        }
        assert(word_at(text, j, https_w(), false)) by {
            assert forall|k: int| 0 <= k < 8 implies text[j + k] == https_w()[k] by {
                assert(text[j + k] == text.subrange(j, j + 31)[k]);
            }
        }
        assert(proto_end(text, j) == Some(j + 8));
        assert(word_at(text, j + 8, github_w(), false)) by {
            assert forall|k: int| 0 <= k < 11 implies text[j + 8 + k] == github_w()[k] by {
                assert(text[j + 8 + k] == text.subrange(j, j + 31)[8 + k]);
            }
        }
        assert(text[j + 19] == text.subrange(j, j + 31)[19]);
        assert(text[j + 20] == text.subrange(j, j + 31)[20]);
        assert(text[j + 21] == text.subrange(j, j + 31)[21]);
        assert(text[j + 22] == text.subrange(j, j + 31)[22]);
        assert(text[j + 19] == 'o' && text[j + 20] == '/' && text[j + 21] == 'r' && text[j + 22]
            == '/');
        assert(nonslash_end(text, j + 19) == j + 20) by {
            assert(text[j + 19] != '/');
            assert(nonslash_end(text, j + 20) == j + 20);
        }
        assert(nonslash_end(text, j + 21) == j + 22) by {
            assert(text[j + 21] != '/');
            assert(nonslash_end(text, j + 22) == j + 22);
        }
        assert(word_at(text, j + 22, issues_w(), false)) by {
            assert forall|k: int| 0 <= k < 8 implies text[j + 22 + k] == issues_w()[k] by {
                assert(text[j + 22 + k] == text.subrange(j, j + 31)[22 + k]);
            }
        }
        assert(text[j + 30] == text.subrange(j, j + 31)[30]);
        assert(text[j + 30] == '7');
        assert(is_ascii_digit(text[j + 30]));
    }
    assert(digit_run_end(text, j + 31) == j + 31);
    assert(digit_run_end(text, j + 30) == j + 31);
    lemma_url_capture(text, j, j + 30);
    assert(text[j + 30] == text.subrange(j, j + 31)[30]);
    assert(text.subrange(j + 30, j + 31) =~= "7"@);
    assert(refs_from(text, 0, MatchKind::Url).contains("7"@));
    // One index in each family's half of the extraction.
    let k1 = choose|k1: int|
        0 <= k1 < refs_from(text, 0, MatchKind::Keyword).len() && refs_from(
            text,
            0,
            MatchKind::Keyword,
        )[k1] == "7"@;
    let k2 = choose|k2: int|
        0 <= k2 < refs_from(text, 0, MatchKind::Url).len() && refs_from(
            text,
            0,
            MatchKind::Url,
        )[k2] == "7"@;
    let off = refs_from(text, 0, MatchKind::Keyword).len() as int;
    assert(extracted_refs(text)[k1] == "7"@);
    assert(extracted_refs(text)[off + k2] == "7"@);
    assert(0 <= k1 < off + k2 < extracted_refs(text).len());
}

} // verus!
