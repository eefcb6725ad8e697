//! SQL `LIKE` matching: `%` matches any run of characters (also none), `_`
//! matches exactly one character, and every other character matches itself
//! with ASCII letters matching either case — what SQLite's default `LIKE`
//! answers. Other letters (`É`, `ß`) match only themselves.
use vstd::prelude::*;

verus! {

/// The characters of `s`, in order.
pub fn chars_of(s: &str) -> (r: Vec<char>)
    ensures
        r@ == s@,
{
    let mut out: Vec<char> = Vec::new();
    for c in it: s.chars()
        invariant
            out@ == it.seq().take(it.index() as int),
    {
        out.push(c);
    }
    out
}

/// Whether the pattern character `p` matches the text character `t`: the
/// same character, or the same ASCII letter in the other case.
pub open spec fn same_letter(p: char, t: char) -> bool {
    let (x, y) = (p as int, t as int);
    ||| x == y
    ||| 65 <= x <= 90 && y == x + 32
    ||| 65 <= y <= 90 && x == y + 32
}

/// Whether the pattern character `p` matches the text character `t`.
fn letters_match(p: char, t: char) -> (r: bool)
    ensures
        r == same_letter(p, t),
{
    let x = p as u32;
    let y = t as u32;
    x == y || (65 <= x && x <= 90 && y == x + 32) || (65 <= y && y <= 90 && x == y + 32)
}

/// Whether `text[i..]` matches `pattern[j..]`.
pub open spec fn like_from(text: Seq<char>, pattern: Seq<char>, i: int, j: int) -> bool
    decreases pattern.len() - j, text.len() - i,
{
    if !(0 <= i <= text.len() && 0 <= j <= pattern.len()) {
        false
    } else if j == pattern.len() {
        i == text.len()
    } else if pattern[j] == '%' {
        like_from(text, pattern, i, j + 1) || (i < text.len() && like_from(text, pattern, i + 1, j))
    } else if i == text.len() {
        false
    } else if pattern[j] == '_' || same_letter(pattern[j], text[i]) {
        like_from(text, pattern, i + 1, j + 1)
    } else {
        false
    }
}

/// Whether all of `text` matches all of `pattern`.
pub open spec fn like_matches(text: Seq<char>, pattern: Seq<char>) -> bool {
    like_from(text, pattern, 0, 0)
}

/// SQL `LIKE` over the characters of `text` and `pattern`.
///
/// Fills the table of suffix matches row by row from the end of the text,
/// keeping two rows.
pub fn like_match(text: &str, pattern: &str) -> (r: bool)
    ensures
        r == like_matches(text@, pattern@),
{
    let t = chars_of(text);
    let p = chars_of(pattern);
    let n = t.len();
    let m = p.len();
    let ghost ts = t@;
    let ghost ps = p@;
    // Row `n`: only the empty text; it matches a pattern suffix made of `%` alone.
    let mut next_row: Vec<bool> = Vec::new();
    let mut k: usize = 0;
    while k < m
        invariant
            k <= m,
            next_row@.len() == k,
        decreases m - k,
    {
        next_row.push(false);
        k = k + 1;
    }
    next_row.push(true);
    let mut j: usize = m;
    while j > 0
        invariant
            j <= m,
            m == ps.len(),
            n == ts.len(),
            p@ == ps,
            next_row@.len() == m + 1,
            forall|q: int| j <= q <= m ==> #[trigger] next_row@[q] == like_from(ts, ps, n as int, q),
        decreases j,
    {
        let jj = j - 1;
        let v = p[jj] == '%' && next_row[jj + 1];
        next_row.set(jj, v);
        j = jj;
    }
    // Rows `n - 1` down to `0`.
    let mut i: usize = n;
    while i > 0
        invariant
            i <= n,
            m == ps.len(),
            n == ts.len(),
            t@ == ts,
            p@ == ps,
            next_row@.len() == m + 1,
            forall|q: int| 0 <= q <= m ==> #[trigger] next_row@[q] == like_from(ts, ps, i as int, q),
        decreases i,
    {
        let ii = i - 1;
        let mut row: Vec<bool> = Vec::new();
        let mut k: usize = 0;
        while k < m
            invariant
                k <= m,
                row@.len() == k,
            decreases m - k,
        {
            row.push(false);
            k = k + 1;
        }
        row.push(false);
        // An empty pattern suffix does not match a non-empty text suffix.
        let mut j: usize = m;
        while j > 0
            invariant
                j <= m,
                ii < n,
                m == ps.len(),
                n == ts.len(),
                t@ == ts,
                p@ == ps,
                row@.len() == m + 1,
                next_row@.len() == m + 1,
                forall|q: int| 0 <= q <= m ==> #[trigger] next_row@[q] == like_from(ts, ps, ii + 1, q),
                forall|q: int| j <= q <= m ==> #[trigger] row@[q] == like_from(ts, ps, ii as int, q),
            decreases j,
        {
            let jj = j - 1;
            let pc = p[jj];
            let v = if pc == '%' {
                row[jj + 1] || next_row[jj]
            } else {
                (pc == '_' || letters_match(pc, t[ii])) && next_row[jj + 1]
            };
            row.set(jj, v);
            j = jj;
        }
        next_row = row;
        i = ii;
    }
    next_row[0]
}

/// `%` alone matches the rest of any text.
proof fn lemma_percent_from(text: Seq<char>, i: int)
    requires
        0 <= i <= text.len(),
    ensures
        like_from(text, seq!['%'], i, 0),
    decreases text.len() - i,
{
    let p = seq!['%'];
    assert(p[0] == '%');
    if i < text.len() {
        lemma_percent_from(text, i + 1);
    } else {
        assert(like_from(text, p, i, 1));
    }
}

/// A pattern with no wildcard matches from positions `i` and `j` exactly
/// when as many characters remain on both sides and they match letter by
/// letter.
proof fn lemma_literal_from(text: Seq<char>, pattern: Seq<char>, i: int, j: int)
    requires
        0 <= i <= text.len(),
        0 <= j <= pattern.len(),
        forall|k: int| 0 <= k < pattern.len() ==> #[trigger] pattern[k] != '%' && pattern[k] != '_',
    ensures
        like_from(text, pattern, i, j) == (text.len() - i == pattern.len() - j && forall|k: int|
            0 <= k < pattern.len() - j ==> #[trigger] same_letter(pattern[j + k], text[i + k])),
    decreases pattern.len() - j,
{
    if j < pattern.len() && i < text.len() {
        lemma_literal_from(text, pattern, i + 1, j + 1);
        if text.len() - i == pattern.len() - j && (forall|k: int|
            0 <= k < pattern.len() - j ==> #[trigger] same_letter(pattern[j + k], text[i + k])) {
            assert(same_letter(pattern[j + 0], text[i + 0]));
            assert forall|k: int| 0 <= k < pattern.len() - (j + 1) implies #[trigger] same_letter(
                pattern[(j + 1) + k],
                text[(i + 1) + k],
            ) by {
                assert(same_letter(pattern[j + (k + 1)], text[i + (k + 1)]));
            }
        }
        if like_from(text, pattern, i, j) {
            assert forall|k: int| 0 <= k < pattern.len() - j implies #[trigger] same_letter(pattern[j + k], text[i + k]) by {
                if k > 0 {
                    assert(same_letter(pattern[(j + 1) + (k - 1)], text[(i + 1) + (k - 1)]));
                }
            }
        } else if text.len() - i == pattern.len() - j {
            if !same_letter(pattern[j], text[i]) {
                assert(!same_letter(pattern[j + 0], text[i + 0]));
            } else {
                let k = choose|k: int|
                    0 <= k < pattern.len() - (j + 1) && !#[trigger] same_letter(pattern[(j + 1) + k], text[(i + 1) + k]);
                assert(!same_letter(pattern[j + (k + 1)], text[i + (k + 1)]));
            }
        }
    }
}

/// What `LIKE` means, through patterns whose answer is plain: `%` matches
/// every text, `_` matches exactly the texts of one character, the empty
/// pattern matches only the empty text, and a pattern without wildcards
/// matches exactly the texts of its length whose characters match its own
/// one by one, ASCII letters in either case.
pub proof fn lemma_like_meaning(text: Seq<char>, pattern: Seq<char>)
    ensures
        like_matches(text, seq!['%']),
        like_matches(text, seq!['_']) == (text.len() == 1),
        like_matches(text, Seq::<char>::empty()) == (text.len() == 0),
        (forall|k: int| 0 <= k < pattern.len() ==> #[trigger] pattern[k] != '%' && pattern[k] != '_') ==> like_matches(
            text,
            pattern,
        ) == (text.len() == pattern.len() && forall|k: int|
            0 <= k < pattern.len() ==> #[trigger] same_letter(pattern[k], text[k])),
{
    lemma_percent_from(text, 0);
    let u = seq!['_'];
    assert(u[0] == '_');
    if text.len() >= 1 {
        assert(like_from(text, u, 1, 1) == (1 == text.len()));
    }
    if forall|k: int| 0 <= k < pattern.len() ==> #[trigger] pattern[k] != '%' && pattern[k] != '_' {
        lemma_literal_from(text, pattern, 0, 0);
        let all_same = forall|k: int| 0 <= k < pattern.len() ==> #[trigger] same_letter(pattern[k], text[k]);
        let all_same_from = forall|k: int|
            0 <= k < pattern.len() - 0 ==> #[trigger] same_letter(pattern[0 + k], text[0 + k]);
        if all_same {
            assert forall|k: int| 0 <= k < pattern.len() - 0 implies #[trigger] same_letter(pattern[0 + k], text[0 + k]) by {
                assert(same_letter(pattern[k], text[k]));
            }
        }
        if all_same_from {
            assert forall|k: int| 0 <= k < pattern.len() implies #[trigger] same_letter(pattern[k], text[k]) by {
                assert(same_letter(pattern[0 + k], text[0 + k]));
            }
        }
        assert(all_same == all_same_from);
    }
}

/// Letters match themselves and their ASCII other case, and nothing else.
pub proof fn lemma_same_letter_meaning()
    ensures
        forall|c: char| #[trigger] same_letter(c, c),
        same_letter('a', 'A') && same_letter('A', 'a') && same_letter('z', 'Z'),
        !same_letter('a', 'b') && !same_letter('a', '_') && !same_letter('É', 'é'),
{
}

} // verus!

