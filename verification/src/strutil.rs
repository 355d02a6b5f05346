//! Character-sequence utilities that the rest of the library builds on.
//!
//! All text manipulation is done over `Vec<char>`, with `String` only at the
//! boundaries, so that every step has an exact specification over `Seq<char>`.

use vstd::prelude::*;

verus! {

// ---------------------------------------------------------------------------
// Character classes
// ---------------------------------------------------------------------------
/// Whitespace as the normalizer and the extractor understand it.
pub open spec fn is_space_char(c: char) -> bool {
    c == ' ' || c == '\t' || c == '\n' || c == '\r'
}

/// An ASCII letter.
pub open spec fn is_letter_char(c: char) -> bool {
    ('A' <= c && c <= 'Z') || ('a' <= c && c <= 'z')
}

/// An ASCII digit.
pub open spec fn is_digit_char(c: char) -> bool {
    '0' <= c && c <= '9'
}

/// An ASCII upper-case letter.
pub open spec fn is_upper_char(c: char) -> bool {
    'A' <= c && c <= 'Z'
}

/// An ASCII lower-case letter.
pub open spec fn is_lower_char(c: char) -> bool {
    'a' <= c && c <= 'z'
}

/// An ASCII letter or digit.
pub open spec fn is_alnum_char(c: char) -> bool {
    is_letter_char(c) || is_digit_char(c)
}

pub fn char_is_upper(c: char) -> (r: bool)
    ensures
        r == is_upper_char(c),
{
    'A' <= c && c <= 'Z'
}

pub fn char_is_lower(c: char) -> (r: bool)
    ensures
        r == is_lower_char(c),
{
    'a' <= c && c <= 'z'
}

pub fn char_is_alnum(c: char) -> (r: bool)
    ensures
        r == is_alnum_char(c),
{
    char_is_letter(c) || char_is_digit(c)
}

pub fn char_is_space(c: char) -> (r: bool)
    ensures
        r == is_space_char(c),
{
    c == ' ' || c == '\t' || c == '\n' || c == '\r'
}

pub fn char_is_letter(c: char) -> (r: bool)
    ensures
        r == is_letter_char(c),
{
    ('A' <= c && c <= 'Z') || ('a' <= c && c <= 'z')
}

pub fn char_is_digit(c: char) -> (r: bool)
    ensures
        r == is_digit_char(c),
{
    '0' <= c && c <= '9'
}

// ---------------------------------------------------------------------------
// String <-> Vec<char>
// ---------------------------------------------------------------------------
/// Relies on `String::push`: appends the given character to the end of the string.
#[verifier::external_body]
pub fn push_char(s: &mut String, c: char)
    ensures
        final(s)@ == old(s)@.push(c),
{
    s.push(c);
}

/// Whether two string slices hold the same characters.
pub fn str_eq(a: &str, b: &str) -> (r: bool)
    ensures
        r == (a@ == b@),
{
    let na = a.unicode_len();
    let nb = b.unicode_len();
    if na != nb {
        proof {
            assert(a@ != b@);
        }
        return false;
    }
    let mut i: usize = 0;
    while i < na
        invariant
            na == a@.len() && na == b@.len(),
            i <= na,
            forall|k: int| 0 <= k < i ==> a@[k] == b@[k],
        decreases na - i,
    {
        if a.get_char(i) != b.get_char(i) {
            return false;
        }
        i = i + 1;
    }
    proof {
        assert(a@ =~= b@);
    }
    true
}

pub fn chars_of(s: &str) -> (v: Vec<char>)
    ensures
        v@ == s@,
{
    let n = s.unicode_len();
    let mut v: Vec<char> = Vec::new();
    let mut i: usize = 0;
    while i < n
        invariant
            n == s@.len(),
            i <= n,
            v@ == s@.subrange(0, i as int),
        decreases n - i,
    {
        v.push(s.get_char(i));
        i = i + 1;
        assert(v@ =~= s@.subrange(0, i as int));
    }
    assert(v@ =~= s@);
    v
}

pub fn string_of(v: &Vec<char>) -> (s: String)
    ensures
        s@ == v@,
{
    let mut s = String::new();
    let mut i: usize = 0;
    while i < v.len()
        invariant
            i <= v@.len(),
            s@ == v@.subrange(0, i as int),
        decreases v@.len() - i,
    {
        push_char(&mut s, v[i]);
        i = i + 1;
        assert(s@ =~= v@.subrange(0, i as int));
    }
    assert(s@ =~= v@);
    s
}

// ---------------------------------------------------------------------------
// Substring search
// ---------------------------------------------------------------------------
/// The needle `n` occurs in `h` starting at position `i`.
pub open spec fn match_at(h: Seq<char>, n: Seq<char>, i: int) -> bool {
    0 <= i && i + n.len() <= h.len() && h.subrange(i, i + n.len() as int) == n
}

/// The needle occurs somewhere at or after `from`.
pub open spec fn has_match_from(h: Seq<char>, n: Seq<char>, from: int) -> bool {
    exists|i: int| from <= i && match_at(h, n, i)
}

/// The needle occurs somewhere in the haystack.
pub open spec fn seq_contains(h: Seq<char>, n: Seq<char>) -> bool {
    has_match_from(h, n, 0)
}

fn eq_at(h: &Vec<char>, n: &Vec<char>, i: usize) -> (r: bool)
    requires
        i + n@.len() <= h@.len(),
    ensures
        r == match_at(h@, n@, i as int),
{
    let hl = h.len();
    let mut j: usize = 0;
    while j < n.len()
        invariant
            i + n@.len() <= h@.len(),
            hl == h@.len(),
            j <= n@.len(),
            forall|k: int| 0 <= k < j ==> h@[i + k] == n@[k],
        decreases n@.len() - j,
    {
        if h[i + j] != n[j] {
            assert(h@.subrange(i as int, i + n@.len() as int)[j as int] != n@[j as int]);
            return false;
        }
        j = j + 1;
    }
    assert(h@.subrange(i as int, i + n@.len() as int) =~= n@);
    true
}

/// Position of the first occurrence of `n` in `h` at or after `from`.
pub fn find_from(h: &Vec<char>, n: &Vec<char>, from: usize) -> (r: Option<usize>)
    ensures
        (match r {
            Some(i) => from <= i && match_at(h@, n@, i as int) && (forall|j: int|
                from <= j < i ==> !match_at(h@, n@, j)),
            None => !has_match_from(h@, n@, from as int),
        }),
{
    if n.len() > h.len() {
        return None;
    }
    let last = h.len() - n.len();
    let mut i: usize = from;
    while i <= last
        invariant
            n@.len() <= h@.len(),
            last == h@.len() - n@.len(),
            from <= i,
            forall|j: int| from <= j < i ==> !match_at(h@, n@, j),
        decreases last - i,
    {
        if eq_at(h, n, i) {
            return Some(i);
        }
        if i == last {
            assert(forall|j: int| match_at(h@, n@, j) ==> j <= last);
            return None;
        }
        i = i + 1;
    }
    assert(forall|j: int| match_at(h@, n@, j) ==> j <= last);
    None
}

pub fn contains_sub(h: &Vec<char>, n: &Vec<char>) -> (r: bool)
    ensures
        r == seq_contains(h@, n@),
{
    find_from(h, n, 0).is_some()
}

/// The characters of `v` from `from` up to `to`.
pub fn sub_vec(v: &Vec<char>, from: usize, to: usize) -> (out: Vec<char>)
    requires
        from <= to <= v@.len(),
    ensures
        out@ == v@.subrange(from as int, to as int),
{
    let mut out: Vec<char> = Vec::new();
    let mut i: usize = from;
    while i < to
        invariant
            from <= i <= to <= v@.len(),
            out@ == v@.subrange(from as int, i as int),
        decreases to - i,
    {
        out.push(v[i]);
        i = i + 1;
        assert(out@ =~= v@.subrange(from as int, i as int));
    }
    out
}

// ---------------------------------------------------------------------------
// Replacement
// ---------------------------------------------------------------------------
/// `h` with every (leftmost, non-overlapping) occurrence of `n` replaced by `r`,
/// as `str::replace` does it.
pub open spec fn replace_all_spec(h: Seq<char>, n: Seq<char>, r: Seq<char>) -> Seq<char>
    decreases h.len(),
    when n.len() > 0
{
    if h.len() == 0 {
        h
    } else if match_at(h, n, 0) {
        r + replace_all_spec(h.skip(n.len() as int), n, r)
    } else {
        seq![h[0]] + replace_all_spec(h.skip(1), n, r)
    }
}

pub fn replace_all(h: &Vec<char>, n: &Vec<char>, r: &Vec<char>) -> (out: Vec<char>)
    requires
        n@.len() > 0,
    ensures
        out@ == replace_all_spec(h@, n@, r@),
{
    let mut out: Vec<char> = Vec::new();
    let mut i: usize = 0;
    proof {
        assert(h@.skip(0) =~= h@);
        assert(out@ + replace_all_spec(h@, n@, r@) =~= replace_all_spec(h@, n@, r@));
    }
    while i < h.len()
        invariant
            n@.len() > 0,
            i <= h@.len(),
            replace_all_spec(h@, n@, r@) == out@ + replace_all_spec(
                h@.skip(i as int),
                n@,
                r@,
            ),
        decreases h@.len() - i,
    {
        let ghost pre = out@;
        let ghost rest = h@.skip(i as int);
        if h.len() - i >= n.len() && eq_at(h, n, i) {
            let mut k: usize = 0;
            while k < r.len()
                invariant
                    k <= r@.len(),
                    out@ == pre + r@.subrange(0, k as int),
                decreases r@.len() - k,
            {
                out.push(r[k]);
                k = k + 1;
                assert(out@ =~= pre + r@.subrange(0, k as int));
            }
            assert(out@ =~= pre + r@);
            proof {
                assert(match_at(rest, n@, 0)) by {
                    assert(rest.subrange(0, n@.len() as int) =~= h@.subrange(
                        i as int,
                        i + n@.len() as int,
                    ));
                }
                assert(rest.skip(n@.len() as int) =~= h@.skip(i + n@.len() as int));
            }
            i = i + n.len();
        } else {
            out.push(h[i]);
            proof {
                assert(!match_at(rest, n@, 0)) by {
                    if match_at(rest, n@, 0) {
                        assert(rest.subrange(0, n@.len() as int) =~= h@.subrange(
                            i as int,
                            i + n@.len() as int,
                        ));
                    }
                }
                assert(rest.len() > 0);
                assert(seq![rest[0]] =~= pre.push(h@[i as int]).subrange(
                    pre.len() as int,
                    pre.len() as int + 1,
                ));
                assert(pre + seq![rest[0]] =~= pre.push(h@[i as int]));
                assert(rest.skip(1) =~= h@.skip(i + 1));
            }
            i = i + 1;
        }
    }
    proof {
        assert(h@.skip(i as int) =~= Seq::<char>::empty());
        assert(replace_all_spec(Seq::<char>::empty(), n@, r@) == Seq::<char>::empty());
        assert(out@ + Seq::<char>::empty() =~= out@);
    }
    out
}

// ---------------------------------------------------------------------------
// Trimming
// ---------------------------------------------------------------------------
pub open spec fn trim_start_spec(s: Seq<char>) -> Seq<char>
    decreases s.len(),
{
    if s.len() > 0 && is_space_char(s[0]) {
        trim_start_spec(s.skip(1))
    } else {
        s
    }
}

pub open spec fn trim_end_spec(s: Seq<char>) -> Seq<char>
    decreases s.len(),
{
    if s.len() > 0 && is_space_char(s[s.len() - 1]) {
        trim_end_spec(s.take(s.len() - 1))
    } else {
        s
    }
}

/// `s` with leading and trailing whitespace removed.
pub open spec fn trim_spec(s: Seq<char>) -> Seq<char> {
    trim_end_spec(trim_start_spec(s))
}

fn trim_start_chars(v: &Vec<char>) -> (out: Vec<char>)
    ensures
        out@ == trim_start_spec(v@),
{
    let mut i: usize = 0;
    proof {
        assert(v@.skip(0) =~= v@);
    }
    while i < v.len() && char_is_space(v[i])
        invariant
            i <= v@.len(),
            trim_start_spec(v@) == trim_start_spec(v@.skip(i as int)),
            forall|k: int| 0 <= k < i ==> is_space_char(v@[k]),
        decreases v@.len() - i,
    {
        proof {
            let rest = v@.skip(i as int);
            assert(rest.skip(1) =~= v@.skip(i + 1));
        }
        i = i + 1;
    }
    let mut out: Vec<char> = Vec::new();
    let mut j: usize = i;
    while j < v.len()
        invariant
            i <= j <= v@.len(),
            out@ == v@.subrange(i as int, j as int),
        decreases v@.len() - j,
    {
        out.push(v[j]);
        j = j + 1;
        assert(out@ =~= v@.subrange(i as int, j as int));
    }
    proof {
        assert(v@.subrange(i as int, v@.len() as int) =~= v@.skip(i as int));
        if i < v@.len() {
            assert(!is_space_char(v@.skip(i as int)[0]));
        }
    }
    out
}

fn trim_end_chars(v: &Vec<char>) -> (out: Vec<char>)
    ensures
        out@ == trim_end_spec(v@),
{
    let mut e: usize = v.len();
    proof {
        assert(v@.take(v@.len() as int) =~= v@);
    }
    while e > 0 && char_is_space(v[e - 1])
        invariant
            e <= v@.len(),
            trim_end_spec(v@) == trim_end_spec(v@.take(e as int)),
        decreases e,
    {
        proof {
            let cur = v@.take(e as int);
            assert(cur.take(cur.len() - 1) =~= v@.take(e - 1));
        }
        e = e - 1;
    }
    let mut out: Vec<char> = Vec::new();
    let mut j: usize = 0;
    while j < e
        invariant
            j <= e <= v@.len(),
            out@ == v@.subrange(0, j as int),
        decreases e - j,
    {
        out.push(v[j]);
        j = j + 1;
        assert(out@ =~= v@.subrange(0, j as int));
    }
    proof {
        assert(v@.subrange(0, e as int) =~= v@.take(e as int));
        if e > 0 {
            assert(v@.take(e as int)[e - 1] == v@[e - 1]);
        }
    }
    out
}

/// `v` with leading and trailing whitespace removed.
pub fn trim_chars(v: &Vec<char>) -> (out: Vec<char>)
    ensures
        out@ == trim_spec(v@),
{
    let t = trim_start_chars(v);
    trim_end_chars(&t)
}

// ---------------------------------------------------------------------------
// Whitespace collapsing
// ---------------------------------------------------------------------------
/// Every maximal run of whitespace becomes one `' '`, as the extraction rules
/// require of free text.
pub open spec fn collapse_spaces_spec(s: Seq<char>) -> Seq<char>
    decreases s.len(),
{
    if s.len() == 0 {
        s
    } else if is_space_char(s[0]) {
        if s.len() > 1 && is_space_char(s[1]) {
            collapse_spaces_spec(s.skip(1))
        } else {
            seq![' '] + collapse_spaces_spec(s.skip(1))
        }
    } else {
        seq![s[0]] + collapse_spaces_spec(s.skip(1))
    }
}

pub fn collapse_spaces(v: &Vec<char>) -> (out: Vec<char>)
    ensures
        out@ == collapse_spaces_spec(v@),
{
    let mut out: Vec<char> = Vec::new();
    let mut i: usize = 0;
    proof {
        assert(v@.skip(0) =~= v@);
        assert(out@ + collapse_spaces_spec(v@) =~= collapse_spaces_spec(v@));
    }
    while i < v.len()
        invariant
            i <= v@.len(),
            collapse_spaces_spec(v@) == out@ + collapse_spaces_spec(v@.skip(i as int)),
        decreases v@.len() - i,
    {
        let ghost pre = out@;
        let ghost rest = v@.skip(i as int);
        proof {
            assert(rest.skip(1) =~= v@.skip(i + 1));
        }
        if char_is_space(v[i]) && i + 1 < v.len() && char_is_space(v[i + 1]) {
            // a later space in the same run will produce the single ' '
        } else if char_is_space(v[i]) {
            out.push(' ');
            proof {
                assert(pre + seq![' '] =~= pre.push(' '));
            }
        } else {
            out.push(v[i]);
            proof {
                assert(pre + seq![rest[0]] =~= pre.push(v@[i as int]));
            }
        }
        i = i + 1;
    }
    proof {
        assert(v@.skip(i as int) =~= Seq::<char>::empty());
        assert(out@ + Seq::<char>::empty() =~= out@);
    }
    out
}

// ---------------------------------------------------------------------------
// Integer parsing
// ---------------------------------------------------------------------------
/// Value of a sequence of ASCII digits, most significant first.
pub open spec fn digits_val(s: Seq<char>) -> nat
    decreases s.len(),
{
    if s.len() == 0 {
        0
    } else {
        (digits_val(s.take(s.len() - 1)) * 10 + (s[s.len() - 1] as int - '0' as int)) as nat
    }
}

pub open spec fn all_digits(s: Seq<char>) -> bool {
    forall|i: int| 0 <= i < s.len() ==> is_digit_char(s[i])
}

/// Parse an unsigned decimal number, as `str::parse::<u64>` accepts it:
/// non-empty, all digits, and within range.
pub fn parse_u64(v: &Vec<char>) -> (r: Option<u64>)
    ensures
        (match r {
            Some(x) => v@.len() > 0 && all_digits(v@) && x == digits_val(v@) && digits_val(v@)
                <= u64::MAX,
            None => v@.len() == 0 || !all_digits(v@) || digits_val(v@) > u64::MAX,
        }),
{
    if v.len() == 0 {
        return None;
    }
    let mut acc: u64 = 0;
    let mut i: usize = 0;
    while i < v.len()
        invariant
            i <= v@.len(),
            v@.len() > 0,
            all_digits(v@.take(i as int)),
            acc == digits_val(v@.take(i as int)),
        decreases v@.len() - i,
    {
        let c = v[i];
        if !char_is_digit(c) {
            return None;
        }
        let d: u64 = (c as u64) - ('0' as u64);
        proof {
            assert(v@.take(i + 1).take(i as int) =~= v@.take(i as int));
            assert(v@.take(i + 1)[i as int] == v@[i as int]);
        }
        if acc > (u64::MAX - d) / 10 {
            proof {
                assert(digits_val(v@.take(i + 1)) > u64::MAX);
                if all_digits(v@) {
                    lemma_digits_val_monotone(v@.take(i + 1), v@);
                }
            }
            return None;
        }
        acc = acc * 10 + d;
        i = i + 1;
    }
    proof {
        assert(v@.take(i as int) =~= v@);
    }
    Some(acc)
}

/// A prefix's digit value never exceeds the whole string's.
proof fn lemma_digits_val_monotone(p: Seq<char>, s: Seq<char>)
    requires
        all_digits(s),
        p.len() <= s.len(),
        p =~= s.take(p.len() as int),
    ensures
        digits_val(p) <= digits_val(s),
    decreases s.len() - p.len(),
{
    if p.len() < s.len() {
        let q = s.take(p.len() as int + 1);
        assert(q.take(q.len() - 1) =~= p);
        assert(is_digit_char(s[p.len() as int]));
        assert(digits_val(q) == digits_val(p) * 10 + (q[q.len() - 1] as nat - '0' as nat));
        lemma_digits_val_monotone(q, s);
    } else {
        assert(p =~= s);
    }
}

// ---------------------------------------------------------------------------
// Prefix strip
// ---------------------------------------------------------------------------
/// `s` without the prefix `p`, when `s` starts with `p`; otherwise `s` itself,
/// as `str::trim_start_matches` behaves on a single occurrence.
pub open spec fn strip_prefix_spec(s: Seq<char>, p: Seq<char>) -> Seq<char> {
    if p.len() <= s.len() && s.take(p.len() as int) == p {
        s.skip(p.len() as int)
    } else {
        s
    }
}

/// `s` with every repetition of the leading prefix `p` removed, as
/// `str::trim_start_matches` behaves.
pub open spec fn strip_prefix_all_spec(s: Seq<char>, p: Seq<char>) -> Seq<char>
    decreases s.len(),
    when p.len() > 0
{
    if p.len() <= s.len() && s.take(p.len() as int) == p {
        strip_prefix_all_spec(s.skip(p.len() as int), p)
    } else {
        s
    }
}

pub fn strip_prefix_all(v: &Vec<char>, p: &Vec<char>) -> (out: Vec<char>)
    requires
        p@.len() > 0,
    ensures
        out@ == strip_prefix_all_spec(v@, p@),
{
    let mut i: usize = 0;
    proof {
        assert(v@.skip(0) =~= v@);
    }
    while v.len() - i >= p.len() && eq_at(v, p, i)
        invariant
            p@.len() > 0,
            i <= v@.len(),
            strip_prefix_all_spec(v@, p@) == strip_prefix_all_spec(v@.skip(i as int), p@),
        decreases v@.len() - i,
    {
        proof {
            let rest = v@.skip(i as int);
            assert(rest.take(p@.len() as int) =~= v@.subrange(i as int, i + p@.len() as int));
            assert(rest.skip(p@.len() as int) =~= v@.skip(i + p@.len() as int));
        }
        i = i + p.len();
    }
    proof {
        let rest = v@.skip(i as int);
        if p@.len() <= rest.len() && rest.take(p@.len() as int) == p@ {
            assert(rest.take(p@.len() as int) =~= v@.subrange(i as int, i + p@.len() as int));
            assert(match_at(v@, p@, i as int));
        }
    }
    let mut out: Vec<char> = Vec::new();
    let mut j: usize = i;
    while j < v.len()
        invariant
            i <= j <= v@.len(),
            out@ == v@.subrange(i as int, j as int),
        decreases v@.len() - j,
    {
        out.push(v[j]);
        j = j + 1;
        assert(out@ =~= v@.subrange(i as int, j as int));
    }
    proof {
        assert(v@.subrange(i as int, v@.len() as int) =~= v@.skip(i as int));
    }
    out
}

pub fn strip_prefix(v: &Vec<char>, p: &Vec<char>) -> (out: Vec<char>)
    ensures
        out@ == strip_prefix_spec(v@, p@),
{
    let starts = if p.len() <= v.len() {
        eq_at(v, p, 0)
    } else {
        false
    };
    let from: usize = if starts {
        p.len()
    } else {
        0
    };
    proof {
        if starts {
            assert(v@.subrange(0, p@.len() as int) =~= v@.take(p@.len() as int));
        } else {
            if p@.len() <= v@.len() && v@.take(p@.len() as int) == p@ {
                assert(v@.subrange(0, p@.len() as int) =~= v@.take(p@.len() as int));
            }
        }
    }
    let mut out: Vec<char> = Vec::new();
    let mut j: usize = from;
    while j < v.len()
        invariant
            from <= j <= v@.len(),
            out@ == v@.subrange(from as int, j as int),
        decreases v@.len() - j,
    {
        out.push(v[j]);
        j = j + 1;
        assert(out@ =~= v@.subrange(from as int, j as int));
    }
    proof {
        assert(v@.subrange(from as int, v@.len() as int) =~= v@.skip(from as int));
        if from == 0 {
            assert(v@.skip(0) =~= v@);
        }
    }
    out
}

// ---------------------------------------------------------------------------
// ASCII upper-casing, for re-typed share codes
// ---------------------------------------------------------------------------
/// An ASCII letter upper-cased; any other character stays.
pub open spec fn upper_char(c: char) -> char {
    if c == 'a' {
        'A'
    } else if c == 'b' {
        'B'
    } else if c == 'c' {
        'C'
    } else if c == 'd' {
        'D'
    } else if c == 'e' {
        'E'
    } else if c == 'f' {
        'F'
    } else if c == 'g' {
        'G'
    } else if c == 'h' {
        'H'
    } else if c == 'i' {
        'I'
    } else if c == 'j' {
        'J'
    } else if c == 'k' {
        'K'
    } else if c == 'l' {
        'L'
    } else if c == 'm' {
        'M'
    } else if c == 'n' {
        'N'
    } else if c == 'o' {
        'O'
    } else if c == 'p' {
        'P'
    } else if c == 'q' {
        'Q'
    } else if c == 'r' {
        'R'
    } else if c == 's' {
        'S'
    } else if c == 't' {
        'T'
    } else if c == 'u' {
        'U'
    } else if c == 'v' {
        'V'
    } else if c == 'w' {
        'W'
    } else if c == 'x' {
        'X'
    } else if c == 'y' {
        'Y'
    } else if c == 'z' {
        'Z'
    } else {
        c
    }
}

/// A string with its ASCII letters upper-cased.
pub open spec fn upper_spec(s: Seq<char>) -> Seq<char> {
    s.map_values(|c: char| upper_char(c))
}

fn upper_char_exec(c: char) -> (r: char)
    ensures
        r == upper_char(c),
{
    match c {
        'a' => 'A',
        'b' => 'B',
        'c' => 'C',
        'd' => 'D',
        'e' => 'E',
        'f' => 'F',
        'g' => 'G',
        'h' => 'H',
        'i' => 'I',
        'j' => 'J',
        'k' => 'K',
        'l' => 'L',
        'm' => 'M',
        'n' => 'N',
        'o' => 'O',
        'p' => 'P',
        'q' => 'Q',
        'r' => 'R',
        's' => 'S',
        't' => 'T',
        'u' => 'U',
        'v' => 'V',
        'w' => 'W',
        'x' => 'X',
        'y' => 'Y',
        'z' => 'Z',
        other => other,
    }
}

/// Upper-case a string's ASCII letters.
pub fn to_upper(s: &str) -> (r: String)
    ensures
        r@ == upper_spec(s@),
{
    let v = chars_of(s);
    let mut out = String::new();
    let mut i: usize = 0;
    while i < v.len()
        invariant
            v@ == s@,
            i <= v@.len(),
            out@ == upper_spec(s@).take(i as int),
        decreases v@.len() - i,
    {
        push_char(&mut out, upper_char_exec(v[i]));
        i = i + 1;
        assert(out@ =~= upper_spec(s@).take(i as int));
    }
    proof {
        assert(upper_spec(s@).take(s@.len() as int) =~= upper_spec(s@));
    }
    out
}

// ---------------------------------------------------------------------------
// Requisite-text formatting
// ---------------------------------------------------------------------------
/// One pass of the requisite formatter at position `i`, looking at the
/// character `c` the original text held there: insert a space before a capital
/// that follows a lower-case letter or before a letter that follows a comma,
/// and pull a comma back onto the word before it.  Each rewrite keeps only the
/// text up to `i`, as the in-place slicing does.
pub open spec fn format_step(cur: Seq<char>, i: int, c: char) -> Seq<char> {
    if 0 < i && i + 1 < cur.len() {
        let c1 = if is_upper_char(c) && is_lower_char(cur[i - 1]) {
            cur.take(i) + seq![' ', c]
        } else {
            cur
        };
        let c2 = if is_alnum_char(c) && c1[i - 1] == ',' {
            c1.take(i) + seq![' ', c]
        } else {
            c1
        };
        if c == ',' && c2[i - 1] == ' ' {
            c2.take(i) + seq![c]
        } else {
            c2
        }
    } else {
        cur
    }
}

/// The formatter run from position `i` on, driven by the original text `orig`.
pub open spec fn format_iter(orig: Seq<char>, cur: Seq<char>, i: int) -> Seq<char>
    decreases orig.len() - i,
    when 0 <= i <= orig.len()
{
    if i >= orig.len() {
        cur
    } else {
        format_iter(orig, format_step(cur, i, orig[i]), i + 1)
    }
}

/// Requisite text tidied for display: the positional rewrites of
/// `format_step`, then any leading `", "` stripped and no-break spaces
/// replaced by plain ones.
pub open spec fn format_reqs_spec(s: Seq<char>) -> Seq<char> {
    replace_all_spec(
        strip_prefix_all_spec(format_iter(s, s, 0), seq![',', ' ']),
        seq!['\u{a0}'],
        seq![' '],
    )
}

pub fn format_reqs_chars(v: &Vec<char>) -> (out: Vec<char>)
    ensures
        out@ == format_reqs_spec(v@),
{
    let mut cur: Vec<char> = Vec::new();
    let mut k: usize = 0;
    while k < v.len()
        invariant
            k <= v@.len(),
            cur@ == v@.take(k as int),
        decreases v@.len() - k,
    {
        cur.push(v[k]);
        k = k + 1;
        assert(cur@ =~= v@.take(k as int));
    }
    assert(cur@ =~= v@);
    let mut i: usize = 0;
    while i < v.len()
        invariant
            i <= v@.len(),
            format_iter(v@, cur@, i as int) == format_iter(v@, v@, 0),
        decreases v@.len() - i,
    {
        let ghost before = cur@;
        let c = v[i];
        if i > 0 && i + 1 < cur.len() {
            if char_is_upper(c) && char_is_lower(cur[i - 1]) {
                cur.truncate(i);
                cur.push(' ');
                cur.push(c);
                proof {
                    assert(cur@ =~= before.take(i as int) + seq![' ', c]);
                }
            }
            let ghost c1 = cur@;
            if char_is_alnum(c) && cur[i - 1] == ',' {
                cur.truncate(i);
                cur.push(' ');
                cur.push(c);
                proof {
                    assert(cur@ =~= c1.take(i as int) + seq![' ', c]);
                }
            }
            let ghost c2 = cur@;
            if c == ',' && cur[i - 1] == ' ' {
                cur.truncate(i);
                cur.push(c);
                proof {
                    assert(cur@ =~= c2.take(i as int) + seq![c]);
                }
            }
            proof {
                assert(cur@ == format_step(before, i as int, c));
            }
        } else {
            proof {
                assert(cur@ == format_step(before, i as int, c));
            }
        }
        i = i + 1;
    }
    let mut pat: Vec<char> = Vec::new();
    pat.push(',');
    pat.push(' ');
    assert(pat@ =~= seq![',', ' ']);
    let stripped = strip_prefix_all(&cur, &pat);
    let mut nbsp: Vec<char> = Vec::new();
    nbsp.push('\u{a0}');
    assert(nbsp@ =~= seq!['\u{a0}']);
    let mut sp: Vec<char> = Vec::new();
    sp.push(' ');
    assert(sp@ =~= seq![' ']);
    replace_all(&stripped, &nbsp, &sp)
}

} // verus!
