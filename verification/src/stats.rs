//! Line statistics over mirrored file contents.
//!
//! The statistics scan hands file contents in as plain text; this module
//! holds its decisions. A line is a comment line when its first
//! non-whitespace characters are `#`, `"""` or `'''`. Lines are
//! separated by `'\n'`; a carriage return before the separator is
//! whitespace and never affects the decision.

use vstd::prelude::*;
use vstd::string::StrSliceExecFns;

use crate::extract::is_ascii_digit;

verus! {

/// A whitespace character, as trimming understands it.
pub open spec fn is_space(c: char) -> bool {
    ||| c as u32 == 0x20
    ||| 0x09 <= c as u32 <= 0x0d
    ||| c as u32 == 0x85
    ||| c as u32 == 0xa0
    ||| c as u32 == 0x1680
    ||| 0x2000 <= c as u32 <= 0x200a
    ||| c as u32 == 0x2028
    ||| c as u32 == 0x2029
    ||| c as u32 == 0x202f
    ||| c as u32 == 0x205f
    ||| c as u32 == 0x3000
}

/// Where the line beginning at `i` ends: the next `'\n'`, or the end of
/// the text.
pub open spec fn line_end(s: Seq<char>, i: int) -> int
    decreases s.len() - i,
{
    if i < s.len() && s[i] != '\n' {
        line_end(s, i + 1)
    } else {
        i
    }
}

/// Where the leading whitespace of the region `[i, e)` ends.
pub open spec fn ws_end(s: Seq<char>, i: int, e: int) -> int
    decreases e - i,
{
    if i < e && is_space(s[i]) {
        ws_end(s, i + 1, e)
    } else {
        i
    }
}

/// Whether the line spanning `[i, e)` is a comment line: after leading
/// whitespace it begins with `#`, `"""` or `'''`.
pub open spec fn is_comment_line(s: Seq<char>, i: int, e: int) -> bool {
    let k = ws_end(s, i, e);
    ||| (k < e && s[k] == '#')
    ||| (k + 3 <= e && s[k] == '"' && s[k + 1] == '"' && s[k + 2] == '"')
    ||| (k + 3 <= e && s[k] == '\'' && s[k + 1] == '\'' && s[k + 2] == '\'')
}

/// Bounds and content of a line.
pub proof fn lemma_line_run(s: Seq<char>, i: int)
    requires
        0 <= i <= s.len(),
    ensures
        i <= line_end(s, i) <= s.len(),
        forall|j: int| i <= j < line_end(s, i) ==> s[j] != '\n',
        line_end(s, i) < s.len() ==> s[line_end(s, i)] == '\n',
    decreases s.len() - i,
{
    if i < s.len() && s[i] != '\n' {
        lemma_line_run(s, i + 1);
    }
}

/// How many comment lines the text holds from position `i` on.
pub open spec fn comment_count_from(s: Seq<char>, i: int) -> nat
    decreases s.len() - i,
    when 0 <= i
    via comment_count_from_decreases
{
    if i >= s.len() {
        0
    } else {
        let e = line_end(s, i);
        let c: nat = if is_comment_line(s, i, e) {
            1
        } else {
            0
        };
        if e < s.len() {
            (c + comment_count_from(s, e + 1)) as nat
        } else {
            c
        }
    }
}

#[via_fn]
proof fn comment_count_from_decreases(s: Seq<char>, i: int) {
    if 0 <= i < s.len() {
        lemma_line_run(s, i);
    }
}

/// How many comment lines the whole text holds.
pub open spec fn comment_line_count(s: Seq<char>) -> nat {
    comment_count_from(s, 0)
}

/// Whitespace test.
fn space_char(c: char) -> (b: bool)
    ensures
        b == is_space(c),
{
    let u = c as u32;
    u == 0x20 || (0x09 <= u && u <= 0x0d) || u == 0x85 || u == 0xa0 || u == 0x1680 || (0x2000 <= u
        && u <= 0x200a) || u == 0x2028 || u == 0x2029 || u == 0x202f || u == 0x205f || u == 0x3000
}

/// Scans to the end of the line beginning at `from`.
fn newline_scan(s: &str, n: usize, from: usize) -> (e: usize)
    requires
        n == s@.len(),
        from <= n,
    ensures
        e as int == line_end(s@, from as int),
        from <= e <= n,
{
    let mut e: usize = from;
    while e < n
        invariant
            n == s@.len(),
            from <= e <= n,
            line_end(s@, from as int) == line_end(s@, e as int),
        ensures
            e <= n,
            line_end(s@, from as int) == line_end(s@, e as int),
            e == n || s@[e as int] == '\n',
        decreases n - e,
    {
        let ch = s.get_char(e);
        if ch == '\n' {
            break ;
        }
        e += 1;
    }
    e
}

/// Scans past the leading whitespace of the region `[i, e)`.
fn ws_scan(s: &str, n: usize, i: usize, e: usize) -> (k: usize)
    requires
        n == s@.len(),
        i <= e <= n,
    ensures
        k as int == ws_end(s@, i as int, e as int),
        i <= k <= e,
{
    let mut k: usize = i;
    while k < e
        invariant
            n == s@.len(),
            i <= k <= e <= n,
            ws_end(s@, i as int, e as int) == ws_end(s@, k as int, e as int),
        ensures
            k <= e,
            ws_end(s@, i as int, e as int) == ws_end(s@, k as int, e as int),
            k == e || !is_space(s@[k as int]),
        decreases e - k,
    {
        let ch = s.get_char(k);
        if !space_char(ch) {
            break ;
        }
        k += 1;
    }
    k
}

/// Decides whether the line spanning `[i, e)` is a comment line.
fn comment_test(s: &str, n: usize, i: usize, e: usize) -> (b: bool)
    requires
        n == s@.len(),
        i <= e <= n,
    ensures
        b == is_comment_line(s@, i as int, e as int),
{
    let k = ws_scan(s, n, i, e);
    if k < e {
        let c0 = s.get_char(k);
        if c0 == '#' {
            return true;
        }
        if e - k >= 3 {
            let c1 = s.get_char(k + 1);
            let c2 = s.get_char(k + 2);
            if c0 == '"' && c1 == '"' && c2 == '"' {
                return true;
            }
            if c0 == '\'' && c1 == '\'' && c2 == '\'' {
                return true;
            }
        }
    }
    false
}

/// Counts the comment lines of `content`: the lines whose first
/// non-whitespace characters are `#`, `"""` or `'''`.
pub fn count_comment_lines(content: &str) -> (r: usize)
    ensures
        r as nat == comment_line_count(content@),
{
    let n = content.unicode_len();
    let mut i: usize = 0;
    let mut count: usize = 0;
    while i < n
        invariant_except_break
            n == content@.len(),
            i <= n,
            count <= i,
            count as nat + comment_count_from(content@, i as int) == comment_line_count(content@),
        ensures
            count as nat == comment_line_count(content@),
        decreases n - i,
    {
        let ghost i0 = i as int;
        let e = newline_scan(content, n, i);
        proof {
            lemma_line_run(content@, i0);
        }
        let c = comment_test(content, n, i, e);
        if c {
            count += 1;
        }
        proof {
            assert(comment_count_from(content@, i0) == (if is_comment_line(
                content@,
                i0,
                e as int,
            ) {
                1nat
            } else {
                0nat
            }) + (if (e as int) < content@.len() {
                comment_count_from(content@, e as int + 1)
            } else {
                0nat
            }));
        }
        if e == n {
            break ;
        }
        i = e + 1;
    }
    count
}

/// A hidden directory entry: its name begins with a dot. The directory
/// walk hands the entry's name in as plain text.
pub fn is_hidden_name(name: &str) -> (b: bool)
    ensures
        b == (name@.len() > 0 && name@[0] == '.'),
{
    let n = name.unicode_len();
    if n == 0 {
        return false;
    }
    let c = name.get_char(0);
    c == '.'
}

/// Whether a file-name extension marks a Python source file. The walk
/// hands the extension in as plain text.
pub fn is_python_extension(ext: &str) -> (b: bool)
    ensures
        b == (ext@ =~= "py"@),
{
    let n = ext.unicode_len();
    proof {
        reveal_strlit("py");
    }
    if n != 2 {
        return false;
    }
    let c0 = ext.get_char(0);
    let c1 = ext.get_char(1);
    let r = c0 == 'p' && c1 == 'y';
    proof {
        if r {
            assert(ext@ =~= "py"@);
        }
    }
    r
}

/// The word that a test-collection report is recognised by.
pub open spec fn collected_w() -> Seq<char> {
    seq!['c', 'o', 'l', 'l', 'e', 'c', 't', 'e', 'd']
}

/// The region `[i, e)` mentions `collected`.
pub open spec fn mentions_collected(s: Seq<char>, i: int, e: int) -> bool {
    exists|j: int| i <= j && j + 9 <= e && #[trigger] s.subrange(j, j + 9) == collected_w()
}

/// Start of the first line from `i` on that mentions `collected`.
pub open spec fn collected_line_start(s: Seq<char>, i: int) -> Option<int>
    decreases s.len() - i,
    when 0 <= i
    via collected_line_start_decreases
{
    if i >= s.len() {
        None
    } else {
        let e = line_end(s, i);
        if mentions_collected(s, i, e) {
            Some(i)
        } else if e < s.len() {
            collected_line_start(s, e + 1)
        } else {
            None
        }
    }
}

#[via_fn]
proof fn collected_line_start_decreases(s: Seq<char>, i: int) {
    if 0 <= i < s.len() {
        lemma_line_run(s, i);
    }
}

/// End of the whitespace-free run beginning at `i`, within `[i, e)`.
pub open spec fn token_end(s: Seq<char>, i: int, e: int) -> int
    decreases e - i,
{
    if i < e && !is_space(s[i]) {
        token_end(s, i + 1, e)
    } else {
        i
    }
}

/// The second whitespace-separated token of the region `[i, e)`.
pub open spec fn second_token(s: Seq<char>, i: int, e: int) -> Option<Seq<char>> {
    let k0 = ws_end(s, i, e);
    let t0 = token_end(s, k0, e);
    let k1 = ws_end(s, t0, e);
    if k1 < e {
        Some(s.subrange(k1, token_end(s, k1, e)))
    } else {
        None
    }
}

/// Value of the first `n` characters of `t` read as decimal digits.
pub open spec fn dec_val(t: Seq<char>, n: int) -> int
    decreases n,
{
    if n <= 0 {
        0
    } else {
        dec_val(t, n - 1) * 10 + (t[n - 1] as u32 - 48)
    }
}

/// Every character is a decimal digit.
pub open spec fn all_digits(d: Seq<char>) -> bool {
    forall|k: int| 0 <= k < d.len() ==> is_ascii_digit(#[trigger] d[k])
}

/// What unsigned 64-bit parsing accepts of a token: one optional `+`,
/// then at least one decimal digit, the value at most `u64::MAX`.
pub open spec fn parsed_u64(t: Seq<char>) -> Option<u64> {
    let d = if t.len() > 0 && t[0] == '+' {
        t.drop_first()
    } else {
        t
    };
    if d.len() > 0 && all_digits(d) && dec_val(d, d.len() as int) <= u64::MAX {
        Some(dec_val(d, d.len() as int) as u64)
    } else {
        None
    }
}

/// The test count a collection report yields: on the first line that
/// mentions `collected`, its second whitespace-separated token read as
/// a number; nothing when no such line, token or number exists.
pub open spec fn collected_count(s: Seq<char>) -> Option<u64> {
    match collected_line_start(s, 0) {
        None => None,
        Some(i) => match second_token(s, i, line_end(s, i)) {
            None => None,
            Some(tok) => parsed_u64(tok),
        },
    }
}

/// A digit prefix has a non-negative value.
proof fn lemma_dec_val_nonneg(t: Seq<char>, n: int)
    requires
        0 <= n <= t.len(),
        forall|k: int| 0 <= k < n ==> is_ascii_digit(#[trigger] t[k]),
    ensures
        dec_val(t, n) >= 0,
    decreases n,
{
    if n > 0 {
        lemma_dec_val_nonneg(t, n - 1);
    }
}

/// Reading more digits never shrinks the value.
proof fn lemma_dec_val_monotone(t: Seq<char>, a: int, b: int)
    requires
        0 <= a <= b <= t.len(),
        forall|k: int| 0 <= k < b ==> is_ascii_digit(#[trigger] t[k]),
    ensures
        dec_val(t, b) >= dec_val(t, a),
    decreases b - a,
{
    if a < b {
        lemma_dec_val_monotone(t, a, b - 1);
        lemma_dec_val_nonneg(t, b - 1);
    }
}

/// Decimal-digit test.
fn digit_char(c: char) -> (b: bool)
    ensures
        b == is_ascii_digit(c),
{
    let u = c as u32;
    48 <= u && u <= 57
}

/// Whether `collected` stands at position `j`.
fn collected_at(s: &str, n: usize, j: usize) -> (b: bool)
    requires
        n == s@.len(),
        j + 9 <= n,
    ensures
        b == (s@.subrange(j as int, j as int + 9) == collected_w()),
{
    let b = s.get_char(j) == 'c' && s.get_char(j + 1) == 'o' && s.get_char(j + 2) == 'l'
        && s.get_char(j + 3) == 'l' && s.get_char(j + 4) == 'e' && s.get_char(j + 5) == 'c'
        && s.get_char(j + 6) == 't' && s.get_char(j + 7) == 'e' && s.get_char(j + 8) == 'd';
    proof {
        let sub = s@.subrange(j as int, j as int + 9);
        assert(sub[0] == s@[j as int]);
        assert(sub[1] == s@[j as int + 1]);
        assert(sub[2] == s@[j as int + 2]);
        assert(sub[3] == s@[j as int + 3]);
        assert(sub[4] == s@[j as int + 4]);
        assert(sub[5] == s@[j as int + 5]);
        assert(sub[6] == s@[j as int + 6]);
        assert(sub[7] == s@[j as int + 7]);
        assert(sub[8] == s@[j as int + 8]);
        if b {
            assert(sub =~= collected_w());
        }
    }
    b
}

/// Decides whether the region `[i, e)` mentions `collected`.
fn find_collected(s: &str, n: usize, i: usize, e: usize) -> (b: bool)
    requires
        n == s@.len(),
        i <= e <= n,
    ensures
        b == mentions_collected(s@, i as int, e as int),
{
    if e - i < 9 {
        proof {
            assert(!mentions_collected(s@, i as int, e as int));
        }
        return false;
    }
    let mut j: usize = i;
    while j <= e - 9
        invariant
            n == s@.len(),
            i <= j,
            j <= e,
            e <= n,
            e - i >= 9,
            forall|jj: int| i <= jj < j ==> #[trigger] s@.subrange(jj, jj + 9) != collected_w(),
        decreases e - j,
    {
        if collected_at(s, n, j) {
            proof {
                assert(mentions_collected(s@, i as int, e as int));
            }
            return true;
        }
        j += 1;
    }
    proof {
        if mentions_collected(s@, i as int, e as int) {
            let jj = choose|jj: int|
                i <= jj && jj + 9 <= e && #[trigger] s@.subrange(jj, jj + 9) == collected_w();
            assert(s@.subrange(jj, jj + 9) != collected_w());
            assert(false);
        }
    }
    false
}

/// Scans the whitespace-free token beginning at `from`, within `[from, e)`.
fn token_scan(s: &str, n: usize, from: usize, e: usize) -> (k: usize)
    requires
        n == s@.len(),
        from <= e <= n,
    ensures
        k as int == token_end(s@, from as int, e as int),
        from <= k <= e,
{
    let mut k: usize = from;
    while k < e
        invariant
            n == s@.len(),
            from <= k <= e <= n,
            token_end(s@, from as int, e as int) == token_end(s@, k as int, e as int),
        ensures
            k <= e,
            token_end(s@, from as int, e as int) == token_end(s@, k as int, e as int),
            k == e || is_space(s@[k as int]),
        decreases e - k,
    {
        let ch = s.get_char(k);
        if space_char(ch) {
            break ;
        }
        k += 1;
    }
    k
}

/// Reads the region `[start, end)` as an unsigned count, as parsing a
/// token accepts it.
fn parse_token_u64(s: &str, n: usize, start: usize, end: usize) -> (r: Option<u64>)
    requires
        n == s@.len(),
        start <= end <= n,
    ensures
        r == parsed_u64(s@.subrange(start as int, end as int)),
{
    let ghost t = s@.subrange(start as int, end as int);
    let mut p = start;
    if p < end && s.get_char(p) == '+' {
        p += 1;
    }
    let ghost d = if t.len() > 0 && t[0] == '+' {
        t.drop_first()
    } else {
        t
    };
    proof {
        assert(d =~= s@.subrange(p as int, end as int));
    }
    if p == end {
        proof {
            assert(d.len() == 0);
        }
        return None;
    }
    let mut v: u64 = 0;
    let mut q = p;
    while q < end
        invariant
            n == s@.len(),
            start <= p <= q <= end <= n,
            d == s@.subrange(p as int, end as int),
            d.len() == end - p,
            t == s@.subrange(start as int, end as int),
            d == (if t.len() > 0 && t[0] == '+' {
                t.drop_first()
            } else {
                t
            }),
            forall|k: int| 0 <= k < q - p ==> is_ascii_digit(#[trigger] d[k]),
            v as int == dec_val(d, q - p),
        decreases end - q,
    {
        let c = s.get_char(q);
        proof {
            assert(d[q - p] == s@[q as int]);
        }
        if !digit_char(c) {
            proof {
                assert(!all_digits(d)) by {
                    assert(0 <= q - p < d.len() && !is_ascii_digit(d[q - p]));
                }
                assert(parsed_u64(t) is None);
            }
            return None;
        }
        let dig: u64 = (c as u32 - 48) as u64;
        let ghost m = q - p;
        let step = v.checked_mul(10);
        let next = match step {
            Some(x) => x.checked_add(dig),
            None => None,
        };
        match next {
            Some(y) => {
                proof {
                    assert(dec_val(d, m + 1) == dec_val(d, m) * 10 + (d[m] as u32 - 48));
                }
                v = y;
            }
            None => {
                proof {
                    assert(v as int * 10 + dig as int > u64::MAX);
                    assert(dec_val(d, m + 1) == dec_val(d, m) * 10 + (d[m] as u32 - 48));
                    assert(dec_val(d, m + 1) > u64::MAX);
                    if all_digits(d) {
                        lemma_dec_val_monotone(d, m + 1, d.len() as int);
                        assert(dec_val(d, d.len() as int) > u64::MAX);
                        assert(parsed_u64(t) is None);
                    } else {
                        assert(parsed_u64(t) is None);
                    }
                }
                return None;
            }
        }
        q += 1;
    }
    proof {
        assert(q == end);
        assert(all_digits(d));
        assert(dec_val(d, d.len() as int) == v as int);
        assert(parsed_u64(t) == Some(v));
    }
    Some(v)
}

/// Reads a test-collection report: the second whitespace-separated
/// token of the first line mentioning `collected`, as a number.
pub fn parse_collected_count(output: &str) -> (r: Option<u64>)
    ensures
        r == collected_count(output@),
{
    let n = output.unicode_len();
    let mut line_start: usize = 0;
    let mut found: Option<usize> = None;
    while line_start < n
        invariant_except_break
            n == output@.len(),
            line_start <= n,
            found is None,
            collected_line_start(output@, 0) == collected_line_start(output@, line_start as int),
        ensures
            n == output@.len(),
            match found {
                Some(ls) => ls <= n && collected_line_start(output@, 0) == Some(ls as int),
                None => collected_line_start(output@, 0) is None,
            },
        decreases n - line_start,
    {
        let e = newline_scan(output, n, line_start);
        proof {
            lemma_line_run(output@, line_start as int);
        }
        if find_collected(output, n, line_start, e) {
            found = Some(line_start);
            break ;
        }
        if e == n {
            break ;
        }
        line_start = e + 1;
    }
    match found {
        None => None,
        Some(ls) => {
            let e = newline_scan(output, n, ls);
            let k0 = ws_scan(output, n, ls, e);
            let t0 = token_scan(output, n, k0, e);
            let k1 = ws_scan(output, n, t0, e);
            if k1 >= e {
                proof {
                    assert(second_token(output@, ls as int, e as int) is None);
                }
                return None;
            }
            let t1 = token_scan(output, n, k1, e);
            parse_token_u64(output, n, k1, t1)
        }
    }
}

} // verus!
