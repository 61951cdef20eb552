//! Issue-reference extraction from free text.
//!
//! Two pattern families are recognised.
//!
//! * Keyword references: an optional governing verb among
//!   close/closes/closed, fix/fixes/fixed, resolve/resolves/resolved,
//!   matched case-insensitively, or a bare `#`, followed immediately by a
//!   run of decimal digits. The digit run is the captured issue number.
//! * Issue URLs: `http://` or `https://`, then `github.com/`, then a
//!   non-empty owner segment, `/`, a non-empty repository segment, then
//!   `/issues/` and a run of decimal digits. The digit run is captured.
//!
//! Each family scans the text left to right; a match consumes its text, so
//! matches of one family never overlap. The extraction of a text is the
//! concatenation of the keyword captures followed by the URL captures, in
//! text order. Nothing is deduplicated — a number referenced through both
//! families, or twice through one, is emitted as often as it is matched.
//! Callers must not assume the result is duplicate-free.

use vstd::prelude::*;
use vstd::string::StrSliceExecFns;
use vstd::string::StringExecFns;

use crate::records::CommitRecord;
use crate::records::PullRequestRecord;

verus! {

/// A decimal digit, the only characters an issue number consists of.
pub open spec fn is_ascii_digit(c: char) -> bool {
    48 <= c as u32 <= 57
}

/// The code point of `c` after ASCII lower-casing; keyword matching is
/// case-insensitive.
pub open spec fn lower(c: char) -> u32 {
    if 65 <= c as u32 <= 90 {
        (c as u32 + 32) as u32
    } else {
        c as u32
    }
}

/// The word `w` stands at position `i` of `s`; compared after ASCII
/// lower-casing when `ci` is set, verbatim otherwise.
pub open spec fn word_at(s: Seq<char>, i: int, w: Seq<char>, ci: bool) -> bool {
    &&& 0 <= i
    &&& i + w.len() <= s.len()
    &&& forall|k: int|
        0 <= k < w.len() ==> (if ci {
            lower(s[i + k]) == lower(#[trigger] w[k])
        } else {
            s[i + k] == w[k]
        })
}

/// The keyword alternatives, longest variant of each verb first, the bare
/// `#` last. At any position at most one of them can be followed by a
/// digit, so the order never decides a match.
pub open spec fn kw_words() -> Seq<Seq<char>> {
    seq![
        seq!['c', 'l', 'o', 's', 'e', 's'],
        seq!['c', 'l', 'o', 's', 'e', 'd'],
        seq!['c', 'l', 'o', 's', 'e'],
        seq!['f', 'i', 'x', 'e', 's'],
        seq!['f', 'i', 'x', 'e', 'd'],
        seq!['f', 'i', 'x'],
        seq!['r', 'e', 's', 'o', 'l', 'v', 'e', 's'],
        seq!['r', 'e', 's', 'o', 'l', 'v', 'e', 'd'],
        seq!['r', 'e', 's', 'o', 'l', 'v', 'e'],
        seq!['#'],
    ]
}

/// The word `w` stands case-insensitively at `i` and a digit follows it.
pub open spec fn kw_hit(s: Seq<char>, i: int, w: Seq<char>) -> bool {
    &&& word_at(s, i, w, true)
    &&& i + w.len() < s.len()
    &&& is_ascii_digit(s[i + w.len()])
}

/// The first word of `ws` that hits at `i`; returns where its digit run
/// starts.
pub open spec fn find_kw(s: Seq<char>, i: int, ws: Seq<Seq<char>>) -> Option<int>
    decreases ws.len(),
{
    if ws.len() == 0 {
        None
    } else if kw_hit(s, i, ws[0]) {
        Some(i + ws[0].len())
    } else {
        find_kw(s, i, ws.drop_first())
    }
}

/// Where the digit run of a keyword reference standing at `i` begins, if
/// one stands there.
pub open spec fn kw_digits_start(s: Seq<char>, i: int) -> Option<int> {
    find_kw(s, i, kw_words())
}

/// The end of the digit run beginning at `d`.
pub open spec fn digit_run_end(s: Seq<char>, d: int) -> int
    decreases s.len() - d,
{
    if d < s.len() && is_ascii_digit(s[d]) {
        digit_run_end(s, d + 1)
    } else {
        d
    }
}

/// The end of the slash-free run beginning at `d`.
pub open spec fn nonslash_end(s: Seq<char>, d: int) -> int
    decreases s.len() - d,
{
    if d < s.len() && s[d] != '/' {
        nonslash_end(s, d + 1)
    } else {
        d
    }
}

pub open spec fn http_w() -> Seq<char> {
    seq!['h', 't', 't', 'p', ':', '/', '/']
}

pub open spec fn https_w() -> Seq<char> {
    seq!['h', 't', 't', 'p', 's', ':', '/', '/']
}

pub open spec fn github_w() -> Seq<char> {
    seq!['g', 'i', 't', 'h', 'u', 'b', '.', 'c', 'o', 'm', '/']
}

pub open spec fn issues_w() -> Seq<char> {
    seq!['/', 'i', 's', 's', 'u', 'e', 's', '/']
}

/// Where the protocol part `http://` or `https://` standing at `i` ends.
pub open spec fn proto_end(s: Seq<char>, i: int) -> Option<int> {
    if word_at(s, i, http_w(), false) {
        Some(i + 7)
    } else if word_at(s, i, https_w(), false) {
        Some(i + 8)
    } else {
        None
    }
}

/// Where the digit run of a full issue URL standing at `i` begins, if one
/// stands there: protocol, `github.com/`, non-empty owner segment, `/`,
/// non-empty repository segment, `/issues/`, digits.
pub open spec fn url_digits_start(s: Seq<char>, i: int) -> Option<int> {
    match proto_end(s, i) {
        None => None,
        Some(g) => if word_at(s, g, github_w(), false) {
            let a = g + 11;
            let b = nonslash_end(s, a);
            let c = nonslash_end(s, b + 1);
            if b > a && c > b + 1 && word_at(s, c, issues_w(), false) && c + 8 < s.len()
                && is_ascii_digit(s[c + 8]) {
                Some(c + 8)
            } else {
                None
            }
        } else {
            None
        },
    }
}

/// The two reference pattern families.
#[derive(Clone, Copy)]
pub enum MatchKind {
    Keyword,
    Url,
}

/// Where the digit run of a reference of kind `kind` standing at `i`
/// begins.
pub open spec fn ref_digits_start(s: Seq<char>, i: int, kind: MatchKind) -> Option<int> {
    match kind {
        MatchKind::Keyword => kw_digits_start(s, i),
        MatchKind::Url => url_digits_start(s, i),
    }
}

/// All digit runs captured when scanning `s` left to right from `i` for
/// references of kind `kind`. A match is consumed whole: the scan resumes
/// where the match's digit run ends.
pub open spec fn refs_from(s: Seq<char>, i: int, kind: MatchKind) -> Seq<Seq<char>>
    decreases s.len() - i,
    via refs_from_decreases
{
    if i >= s.len() {
        Seq::empty()
    } else {
        match ref_digits_start(s, i, kind) {
            Some(d) => seq![s.subrange(d, digit_run_end(s, d))] + refs_from(
                s,
                digit_run_end(s, d),
                kind,
            ),
            None => refs_from(s, i + 1, kind),
        }
    }
}

/// Everything `s` references: the keyword captures, then the URL captures.
pub open spec fn extracted_refs(s: Seq<char>) -> Seq<Seq<char>> {
    refs_from(s, 0, MatchKind::Keyword) + refs_from(s, 0, MatchKind::Url)
}

/// What an optional text field contributes: nothing when absent.
pub open spec fn opt_text_refs(t: Option<String>) -> Seq<Seq<char>> {
    match t {
        Some(x) => extracted_refs(x@),
        None => Seq::empty(),
    }
}

/// What a pull request references: its title's captures, then its body's.
pub open spec fn pr_refs(pr: PullRequestRecord) -> Seq<Seq<char>> {
    opt_text_refs(pr.title) + opt_text_refs(pr.body)
}

/// Bounds and content of a digit run.
pub proof fn lemma_digit_run(s: Seq<char>, d: int)
    requires
        0 <= d <= s.len(),
    ensures
        d <= digit_run_end(s, d) <= s.len(),
        forall|j: int| d <= j < digit_run_end(s, d) ==> is_ascii_digit(s[j]),
        digit_run_end(s, d) < s.len() ==> !is_ascii_digit(s[digit_run_end(s, d)]),
        d < s.len() && is_ascii_digit(s[d]) ==> digit_run_end(s, d) >= d + 1,
    decreases s.len() - d,
{
    if d < s.len() && is_ascii_digit(s[d]) {
        lemma_digit_run(s, d + 1);
    }
}

/// Bounds and content of a slash-free run.
pub proof fn lemma_nonslash_run(s: Seq<char>, d: int)
    requires
        0 <= d <= s.len(),
    ensures
        d <= nonslash_end(s, d) <= s.len(),
        forall|j: int| d <= j < nonslash_end(s, d) ==> s[j] != '/',
        nonslash_end(s, d) < s.len() ==> s[nonslash_end(s, d)] == '/',
    decreases s.len() - d,
{
    if d < s.len() && s[d] != '/' {
        lemma_nonslash_run(s, d + 1);
    }
}

/// A `find_kw` result comes from a word of the list; a `None` refutes
/// them all.
pub proof fn lemma_find_kw_some(s: Seq<char>, i: int, ws: Seq<Seq<char>>)
    ensures
        match find_kw(s, i, ws) {
            Some(d) => exists|j: int|
                0 <= j < ws.len() && kw_hit(s, i, #[trigger] ws[j]) && d == i + ws[j].len(),
            None => forall|j: int| 0 <= j < ws.len() ==> !kw_hit(s, i, #[trigger] ws[j]),
        },
    decreases ws.len(),
{
    if ws.len() > 0 {
        if kw_hit(s, i, ws[0]) {
            assert(kw_hit(s, i, ws[0]) && find_kw(s, i, ws) == Some(i + ws[0].len()));
        } else {
            lemma_find_kw_some(s, i, ws.drop_first());
            match find_kw(s, i, ws.drop_first()) {
                Some(d) => {
                    let j = choose|j: int|
                        0 <= j < ws.drop_first().len() && kw_hit(s, i, #[trigger] ws.drop_first()[j])
                            && d == i + ws.drop_first()[j].len();
                    assert(ws.drop_first()[j] == ws[j + 1]);
                    assert(kw_hit(s, i, ws[j + 1]) && d == i + ws[j + 1].len());
                }
                None => {
                    assert forall|j: int| 0 <= j < ws.len() implies !kw_hit(s, i, #[trigger] ws[j]) by {
                        if j >= 1 {
                            assert(ws.drop_first()[j - 1] == ws[j]);
                        }
                    }
                }
            }
        }
    }
}

/// Words already refuted do not change what `find_kw` finds.
pub proof fn lemma_find_kw_skip(s: Seq<char>, i: int, ws: Seq<Seq<char>>, m: int)
    requires
        0 <= m <= ws.len(),
        forall|j: int| 0 <= j < m ==> !kw_hit(s, i, #[trigger] ws[j]),
    ensures
        find_kw(s, i, ws) == find_kw(s, i, ws.skip(m)),
    decreases m,
{
    if m == 0 {
        assert(ws.skip(0) =~= ws);
    } else {
        assert(!kw_hit(s, i, ws[0]));
        assert(ws.drop_first() =~= ws.skip(1));
        assert forall|j: int| 0 <= j < m - 1 implies !kw_hit(s, i, #[trigger] ws.skip(1)[j]) by {
            assert(ws.skip(1)[j] == ws[j + 1]);
        }
        lemma_find_kw_skip(s, i, ws.skip(1), m - 1);
        assert(ws.skip(1).skip(m - 1) =~= ws.skip(m));
    }
}

/// A reference's digit run starts no earlier than the reference, inside
/// the text, on a digit.
pub proof fn lemma_ref_digits_start_props(s: Seq<char>, i: int, kind: MatchKind)
    ensures
        match ref_digits_start(s, i, kind) {
            Some(d) => 0 <= i <= d < s.len() && is_ascii_digit(s[d]),
            None => true,
        },
{
    match kind {
        MatchKind::Keyword => {
            lemma_find_kw_some(s, i, kw_words());
            match kw_digits_start(s, i) {
                Some(d) => {
                    let j = choose|j: int|
                        0 <= j < kw_words().len() && kw_hit(s, i, #[trigger] kw_words()[j]) && d == i
                            + kw_words()[j].len();
                    assert(word_at(s, i, kw_words()[j], true));
                }
                None => {}
            }
        }
        MatchKind::Url => {
            match url_digits_start(s, i) {
                Some(d) => {
                    assert(0 <= i);
                }
                None => {}
            }
        }
    }
}

#[via_fn]
proof fn refs_from_decreases(s: Seq<char>, i: int, kind: MatchKind) {
    if i < s.len() {
        lemma_ref_digits_start_props(s, i, kind);
        match ref_digits_start(s, i, kind) {
            Some(d) => {
                lemma_digit_run(s, d);
            }
            None => {}
        }
    }
}

/// Decimal-digit test.
fn ascii_digit(c: char) -> (b: bool)
    ensures
        b == is_ascii_digit(c),
{
    let u = c as u32;
    48 <= u && u <= 57
}

/// ASCII lower-casing on code points.
fn lower_code(c: char) -> (u: u32)
    ensures
        u == lower(c),
{
    let u = c as u32;
    if 65 <= u && u <= 90 {
        u + 32
    } else {
        u
    }
}

/// Whether the word `w` stands at position `i` of `s`.
fn word_match(s: &str, n: usize, i: usize, w: &Vec<char>, ci: bool) -> (b: bool)
    requires
        n == s@.len(),
    ensures
        b == word_at(s@, i as int, w@, ci),
{
    if i > n || w.len() > n - i {
        return false;
    }
    let mut k: usize = 0;
    while k < w.len()
        invariant
            n == s@.len(),
            i + w@.len() <= n,
            k <= w@.len(),
            forall|m: int|
                0 <= m < k ==> (if ci {
                    lower(s@[i + m]) == lower(#[trigger] w@[m])
                } else {
                    s@[i + m] == w@[m]
                }),
        decreases w@.len() - k,
    {
        let sc = s.get_char(i + k);
        let wc = w[k];
        let ok = if ci {
            lower_code(sc) == lower_code(wc)
        } else {
            sc == wc
        };
        if !ok {
            return false;
        }
        k += 1;
    }
    true
}

/// The keyword alternatives as runtime data; mirrors `kw_words`.
fn keyword_table() -> (words: Vec<Vec<char>>)
    ensures
        words.deep_view() == kw_words(),
{
    let words: Vec<Vec<char>> = vec![
        vec!['c', 'l', 'o', 's', 'e', 's'],
        vec!['c', 'l', 'o', 's', 'e', 'd'],
        vec!['c', 'l', 'o', 's', 'e'],
        vec!['f', 'i', 'x', 'e', 's'],
        vec!['f', 'i', 'x', 'e', 'd'],
        vec!['f', 'i', 'x'],
        vec!['r', 'e', 's', 'o', 'l', 'v', 'e', 's'],
        vec!['r', 'e', 's', 'o', 'l', 'v', 'e', 'd'],
        vec!['r', 'e', 's', 'o', 'l', 'v', 'e'],
        vec!['#'],
    ];
    proof {
        assert(words.deep_view() =~~= kw_words());
    }
    words
}

/// Finds the digit run of a keyword reference standing at `i`, if any.
fn keyword_start(s: &str, n: usize, i: usize) -> (r: Option<usize>)
    requires
        n == s@.len(),
    ensures
        match r {
            Some(d) => kw_digits_start(s@, i as int) == Some(d as int),
            None => kw_digits_start(s@, i as int) is None,
        },
{
    let words = keyword_table();
    let mut j: usize = 0;
    while j < words.len()
        invariant
            n == s@.len(),
            words.deep_view() == kw_words(),
            j <= words@.len(),
            forall|m: int| 0 <= m < j ==> !kw_hit(s@, i as int, #[trigger] kw_words()[m]),
        decreases words@.len() - j,
    {
        proof {
            assert(words@[j as int]@ == kw_words()[j as int]);
        }
        let w = &words[j];
        if word_match(s, n, i, w, true) {
            let wl = w.len();
            if i + wl < n {
                let c = s.get_char(i + wl);
                if ascii_digit(c) {
                    proof {
                        assert(kw_hit(s@, i as int, kw_words()[j as int]));
                        lemma_find_kw_skip(s@, i as int, kw_words(), j as int);
                        assert(kw_words().skip(j as int)[0] == kw_words()[j as int]);
                        assert(kw_words().skip(j as int).len() > 0);
                    }
                    return Some(i + wl);
                }
            }
        }
        proof {
            assert(!kw_hit(s@, i as int, kw_words()[j as int]));
        }
        j += 1;
    }
    proof {
        lemma_find_kw_skip(s@, i as int, kw_words(), kw_words().len() as int);
        assert(kw_words().skip(10) =~= Seq::<Seq<char>>::empty());
    }
    None
}

/// Scans the slash-free run beginning at `from`.
fn nonslash_scan(s: &str, n: usize, from: usize) -> (e: usize)
    requires
        n == s@.len(),
        from <= n,
    ensures
        e as int == nonslash_end(s@, from as int),
        from <= e <= n,
{
    let mut e: usize = from;
    while e < n
        invariant
            n == s@.len(),
            from <= e <= n,
            nonslash_end(s@, from as int) == nonslash_end(s@, e as int),
        ensures
            e <= n,
            nonslash_end(s@, from as int) == nonslash_end(s@, e as int),
            e == n || s@[e as int] == '/',
        decreases n - e,
    {
        let ch = s.get_char(e);
        if ch == '/' {
            break ;
        }
        e += 1;
    }
    e
}

/// Scans the digit run beginning at `from`.
fn digit_scan(s: &str, n: usize, from: usize) -> (e: usize)
    requires
        n == s@.len(),
        from <= n,
    ensures
        e as int == digit_run_end(s@, from as int),
        from <= e <= n,
{
    let mut e: usize = from;
    while e < n
        invariant
            n == s@.len(),
            from <= e <= n,
            digit_run_end(s@, from as int) == digit_run_end(s@, e as int),
        ensures
            e <= n,
            digit_run_end(s@, from as int) == digit_run_end(s@, e as int),
            e == n || !is_ascii_digit(s@[e as int]),
        decreases n - e,
    {
        let ch = s.get_char(e);
        if !ascii_digit(ch) {
            break ;
        }
        e += 1;
    }
    e
}

/// Finds the digit run of a full issue URL standing at `i`, if any.
fn url_start(s: &str, n: usize, i: usize) -> (r: Option<usize>)
    requires
        n == s@.len(),
    ensures
        match r {
            Some(d) => url_digits_start(s@, i as int) == Some(d as int),
            None => url_digits_start(s@, i as int) is None,
        },
{
    let http: Vec<char> = vec!['h', 't', 't', 'p', ':', '/', '/'];
    let https: Vec<char> = vec!['h', 't', 't', 'p', 's', ':', '/', '/'];
    let github: Vec<char> = vec!['g', 'i', 't', 'h', 'u', 'b', '.', 'c', 'o', 'm', '/'];
    let issues: Vec<char> = vec!['/', 'i', 's', 's', 'u', 'e', 's', '/'];
    proof {
        assert(http@ =~= http_w());
        assert(https@ =~= https_w());
        assert(github@ =~= github_w());
        assert(issues@ =~= issues_w());
    }
    let g: usize;
    if word_match(s, n, i, &http, false) {
        g = i + 7;
    } else if word_match(s, n, i, &https, false) {
        g = i + 8;
    } else {
        return None;
    }
    if !word_match(s, n, g, &github, false) {
        return None;
    }
    let a = g + 11;
    proof {
        lemma_nonslash_run(s@, a as int);
    }
    let b = nonslash_scan(s, n, a);
    if b <= a {
        return None;
    }
    if b >= n {
        proof {
            assert(nonslash_end(s@, b as int + 1) == b as int + 1);
        }
        return None;
    }
    let c = nonslash_scan(s, n, b + 1);
    if c <= b + 1 {
        return None;
    }
    if !word_match(s, n, c, &issues, false) {
        return None;
    }
    if n - c < 9 {
        return None;
    }
    let d0 = c + 8;
    if !ascii_digit(s.get_char(d0)) {
        return None;
    }
    Some(d0)
}

/// Finds the digit run of a reference of kind `kind` standing at `i`.
fn ref_start(s: &str, n: usize, i: usize, kind: MatchKind) -> (r: Option<usize>)
    requires
        n == s@.len(),
    ensures
        match r {
            Some(d) => ref_digits_start(s@, i as int, kind) == Some(d as int),
            None => ref_digits_start(s@, i as int, kind) is None,
        },
{
    match kind {
        MatchKind::Keyword => keyword_start(s, n, i),
        MatchKind::Url => url_start(s, n, i),
    }
}

/// Appends to `out` every capture of kind `kind` in `s`, in text order.
fn scan_refs(s: &str, n: usize, kind: MatchKind, out: &mut Vec<String>)
    requires
        n == s@.len(),
    ensures
        final(out).deep_view() == old(out).deep_view() + refs_from(s@, 0, kind),
{
    let mut i: usize = 0;
    while i < n
        invariant
            n == s@.len(),
            i <= n,
            out.deep_view() + refs_from(s@, i as int, kind) =~~= old(out).deep_view() + refs_from(
                s@,
                0,
                kind,
            ),
        decreases n - i,
    {
        let r = ref_start(s, n, i, kind);
        match r {
            Some(d) => {
                proof {
                    lemma_ref_digits_start_props(s@, i as int, kind);
                    lemma_digit_run(s@, d as int);
                }
                let e = digit_scan(s, n, d);
                let cap = s.substring_char(d, e);
                let ghost before = out.deep_view();
                out.push(String::from_str(cap));
                proof {
                    assert(out.deep_view() =~~= before.push(cap@));
                    assert(refs_from(s@, i as int, kind) == seq![
                        s@.subrange(d as int, e as int),
                    ] + refs_from(s@, e as int, kind));
                    assert(out.deep_view() + refs_from(s@, e as int, kind) =~~= old(
                        out,
                    ).deep_view() + refs_from(s@, 0, kind));
                }
                i = e;
            }
            None => {
                proof {
                    assert(refs_from(s@, i as int, kind) == refs_from(s@, i as int + 1, kind));
                }
                i += 1;
            }
        }
    }
    proof {
        assert(refs_from(s@, n as int, kind) =~~= Seq::<Seq<char>>::empty());
        assert(out.deep_view() =~~= old(out).deep_view() + refs_from(s@, 0, kind));
    }
}

/// Returns every issue number referenced in `text`: the keyword captures
/// in text order, then the URL captures in text order, duplicates kept.
pub fn extract_references(text: &str) -> (r: Vec<String>)
    ensures
        r.deep_view() == extracted_refs(text@),
{
    let n = text.unicode_len();
    let mut out: Vec<String> = Vec::new();
    scan_refs(text, n, MatchKind::Keyword, &mut out);
    scan_refs(text, n, MatchKind::Url, &mut out);
    proof {
        assert(out.deep_view() =~~= extracted_refs(text@));
    }
    out
}

/// References of a pull request: both families over the title, then both
/// families over the body; an absent field contributes nothing.
pub fn extract_issues_from_pr(pr: &PullRequestRecord) -> (r: Vec<String>)
    ensures
        r.deep_view() == pr_refs(*pr),
{
    let mut out: Vec<String> = Vec::new();
    match &pr.title {
        Some(t) => {
            let mut v = extract_references(t.as_str());
            out.append(&mut v);
        }
        None => {}
    }
    match &pr.body {
        Some(t) => {
            let mut v = extract_references(t.as_str());
            out.append(&mut v);
        }
        None => {}
    }
    proof {
        assert(out.deep_view() =~~= pr_refs(*pr));
    }
    out
}

/// References of a commit: both families over its message.
pub fn extract_issues_from_commit(c: &CommitRecord) -> (r: Vec<String>)
    ensures
        r.deep_view() == extracted_refs(c.message@),
{
    extract_references(c.message.as_str())
}

} // verus!
