//! The identifier normalizer: free-form course codes from either data source
//! become one canonical `Identifier` and one stable string key.

use vstd::prelude::*;
use crate::strutil::{
    is_space_char, is_letter_char, is_digit_char, char_is_space, char_is_letter, char_is_digit,
    chars_of, string_of, push_char, sub_vec,
};

verus! {

/// A record whose raw course code holds no digit (or no room for a school
/// suffix) cannot be normalized; callers skip it and count it, they never
/// abort the batch.
#[derive(Clone, Copy, Debug, PartialEq, Eq, Structural)]
pub enum IdentifierError {
    MalformedIdentifier,
}

/// The canonical form of a course code.  `department` and `number` come from
/// scanning the code's stem, `school_suffix` is the trailing two-letter campus
/// code, and `section` is what follows the first `-`; it is empty for
/// catalog-origin codes, which carry no section.
#[derive(Clone, Debug)]
pub struct Identifier {
    pub department: String,
    pub number: String,
    pub school_suffix: String,
    pub section: String,
}

/// Two identifiers are equal iff all four fields match.
pub open spec fn identifier_eq(a: Identifier, b: Identifier) -> bool {
    a.department@ == b.department@ && a.number@ == b.number@ && a.school_suffix@
        == b.school_suffix@ && a.section@ == b.section@
}

// ---------------------------------------------------------------------------
// Spec-level normalizer
// ---------------------------------------------------------------------------
/// Index of the first occurrence of `c` in `s`, or -1.
pub open spec fn index_of_char(s: Seq<char>, c: char) -> int
    decreases s.len(),
{
    if s.len() == 0 {
        -1
    } else if s[0] == c {
        0
    } else {
        let r = index_of_char(s.skip(1), c);
        if r < 0 {
            -1
        } else {
            r + 1
        }
    }
}

pub proof fn lemma_index_of_char(s: Seq<char>, c: char)
    ensures
        index_of_char(s, c) < 0 ==> forall|j: int| 0 <= j < s.len() ==> s[j] != c,
        index_of_char(s, c) >= 0 ==> {
            &&& index_of_char(s, c) < s.len()
            &&& s[index_of_char(s, c)] == c
            &&& forall|j: int| 0 <= j < index_of_char(s, c) ==> s[j] != c
        },
    decreases s.len(),
{
    if s.len() > 0 && s[0] != c {
        lemma_index_of_char(s.skip(1), c);
        let r = index_of_char(s.skip(1), c);
        if r >= 0 {
            assert(s[r + 1] == s.skip(1)[r]);
            assert(forall|j: int| 1 <= j < r + 1 ==> s[j] == s.skip(1)[j - 1]);
        } else {
            assert(forall|j: int| 1 <= j < s.len() ==> s[j] == s.skip(1)[j - 1]);
        }
    }
}

/// The index at which the stem splits into department letters and course
/// number: the first position at which the scan has seen both a letter and a
/// digit, carrying the flags `seen_l` and `seen_d`; -1 when that never happens.
pub open spec fn scan_split(s: Seq<char>, i: int, seen_l: bool, seen_d: bool) -> int
    decreases s.len() - i,
    when 0 <= i <= s.len()
{
    if i >= s.len() {
        -1
    } else {
        let l2 = seen_l || is_letter_char(s[i]);
        let d2 = seen_d || is_digit_char(s[i]);
        if l2 && d2 {
            i
        } else {
            scan_split(s, i + 1, l2, d2)
        }
    }
}

pub proof fn lemma_scan_split_range(s: Seq<char>, i: int, seen_l: bool, seen_d: bool)
    requires
        0 <= i <= s.len(),
    ensures
        scan_split(s, i, seen_l, seen_d) >= 0 ==> i <= scan_split(s, i, seen_l, seen_d) < s.len(),
    decreases s.len() - i,
{
    if i < s.len() {
        let l2 = seen_l || is_letter_char(s[i]);
        let d2 = seen_d || is_digit_char(s[i]);
        if !(l2 && d2) {
            lemma_scan_split_range(s, i + 1, l2, d2);
        }
    }
}

/// Not a whitespace character.
pub open spec fn not_space(c: char) -> bool {
    !is_space_char(c)
}

/// What the normalizer computes: the four canonical fields, or nothing when
/// the code is malformed.  Whitespace is stripped; the first `-` cuts off the
/// section (the second `-`, if any, ends it); the last two characters of the
/// body are the school suffix; the stem before them splits at the first
/// position where the scan has seen both a letter and a digit.
pub open spec fn normalize_spec(raw: Seq<char>) -> Option<
    (Seq<char>, Seq<char>, Seq<char>, Seq<char>),
> {
    let w = raw.filter(|c: char| not_space(c));
    let dash = index_of_char(w, '-');
    let body = if dash >= 0 {
        w.take(dash)
    } else {
        w
    };
    let rest = if dash >= 0 {
        w.skip(dash + 1)
    } else {
        Seq::<char>::empty()
    };
    let dash2 = index_of_char(rest, '-');
    let section = if dash < 0 {
        Seq::<char>::empty()
    } else if dash2 >= 0 {
        rest.take(dash2)
    } else {
        rest
    };
    if body.len() < 2 {
        None
    } else {
        let suffix = body.skip(body.len() - 2);
        let stem = body.take(body.len() - 2);
        let sp = scan_split(stem, 0, false, false);
        if sp < 0 {
            None
        } else {
            Some((stem.take(sp), stem.skip(sp), suffix, section))
        }
    }
}

// ---------------------------------------------------------------------------
// Exec helpers
// ---------------------------------------------------------------------------
fn find_char_from(v: &Vec<char>, c: char, from: usize) -> (r: Option<usize>)
    requires
        from <= v@.len(),
    ensures
        (match r {
            Some(i) => from <= i < v@.len() && v@[i as int] == c && (forall|j: int|
                from <= j < i ==> v@[j] != c),
            None => forall|j: int| from <= j < v@.len() ==> v@[j] != c,
        }),
{
    let mut i: usize = from;
    while i < v.len()
        invariant
            from <= i <= v@.len(),
            forall|j: int| from <= j < i ==> v@[j] != c,
        decreases v@.len() - i,
    {
        if v[i] == c {
            return Some(i);
        }
        i = i + 1;
    }
    None
}

fn remove_spaces(v: &Vec<char>) -> (out: Vec<char>)
    ensures
        out@ == v@.filter(|c: char| not_space(c)),
{
    let mut out: Vec<char> = Vec::new();
    let mut i: usize = 0;
    proof {
        assert(v@.take(0) =~= Seq::<char>::empty());
        reveal_with_fuel(Seq::filter, 2);
    }
    while i < v.len()
        invariant
            i <= v@.len(),
            out@ == v@.take(i as int).filter(|c: char| not_space(c)),
        decreases v@.len() - i,
    {
        proof {
            reveal_with_fuel(Seq::filter, 2);
            assert(v@.take(i + 1).drop_last() =~= v@.take(i as int));
            assert(v@.take(i + 1).last() == v@[i as int]);
        }
        if !char_is_space(v[i]) {
            out.push(v[i]);
        }
        i = i + 1;
    }
    proof {
        assert(v@.take(v@.len() as int) =~= v@);
    }
    out
}

/// The first position in `stem` at which the scan has seen both a letter and
/// a digit.
fn scan_for_split(stem: &Vec<char>) -> (r: Option<usize>)
    ensures
        (match r {
            Some(i) => i < stem@.len() && scan_split(stem@, 0, false, false) == i as int,
            None => scan_split(stem@, 0, false, false) < 0,
        }),
{
    let mut seen_l = false;
    let mut seen_d = false;
    let mut i: usize = 0;
    while i < stem.len()
        invariant
            i <= stem@.len(),
            scan_split(stem@, 0, false, false) == scan_split(stem@, i as int, seen_l, seen_d),
        decreases stem@.len() - i,
    {
        let l2 = seen_l || char_is_letter(stem[i]);
        let d2 = seen_d || char_is_digit(stem[i]);
        if l2 && d2 {
            return Some(i);
        }
        seen_l = l2;
        seen_d = d2;
        i = i + 1;
    }
    None
}

// ---------------------------------------------------------------------------
// The normalizer
// ---------------------------------------------------------------------------
/// Normalize a free-form course code into its canonical `Identifier`.
pub fn normalize(raw: &str) -> (r: Result<Identifier, IdentifierError>)
    ensures
        (match r {
            Ok(id) => normalize_spec(raw@) == Some(
                (id.department@, id.number@, id.school_suffix@, id.section@),
            ),
            Err(_) => normalize_spec(raw@) is None,
        }),
{
    let v = chars_of(raw);
    let w = remove_spaces(&v);
    let wl = w.len();
    let ghost wv = raw@.filter(|c: char| not_space(c));
    let dash = find_char_from(&w, '-', 0);
    proof {
        lemma_index_of_char(wv, '-');
    }
    let (body, section): (Vec<char>, Vec<char>) = match dash {
        Some(d) => {
            proof {
                assert(index_of_char(wv, '-') == d as int) by {
                    lemma_index_of_char(wv, '-');
                }
            }
            let body = sub_vec(&w, 0, d);
            let rest = sub_vec(&w, d + 1, w.len());
            proof {
                assert(rest@ =~= wv.skip(d + 1));
                assert(body@ =~= wv.take(d as int));
                lemma_index_of_char(rest@, '-');
            }
            let dash2 = find_char_from(&rest, '-', 0);
            let section = match dash2 {
                Some(d2) => {
                    proof {
                        assert(index_of_char(rest@, '-') == d2 as int) by {
                            lemma_index_of_char(rest@, '-');
                        }
                    }
                    let s = sub_vec(&rest, 0, d2);
                    proof {
                        assert(s@ =~= rest@.take(d2 as int));
                    }
                    s
                },
                None => {
                    proof {
                        assert(index_of_char(rest@, '-') < 0) by {
                            lemma_index_of_char(rest@, '-');
                        }
                    }
                    rest
                },
            };
            (body, section)
        },
        None => {
            proof {
                assert(index_of_char(wv, '-') < 0) by {
                    lemma_index_of_char(wv, '-');
                }
                assert(w@ =~= wv.take(wv.len() as int));
            }
            (w, Vec::new())
        },
    };
    if body.len() < 2 {
        return Err(IdentifierError::MalformedIdentifier);
    }
    let suffix = sub_vec(&body, body.len() - 2, body.len());
    let stem = sub_vec(&body, 0, body.len() - 2);
    proof {
        assert(suffix@ =~= body@.skip(body@.len() - 2));
        assert(stem@ =~= body@.take(body@.len() - 2));
    }
    let split = scan_for_split(&stem);
    match split {
        Some(sp) => {
            let department = sub_vec(&stem, 0, sp);
            let number = sub_vec(&stem, sp, stem.len());
            proof {
                assert(department@ =~= stem@.take(sp as int));
                assert(number@ =~= stem@.skip(sp as int));
            }
            Ok(
                Identifier {
                    department: string_of(&department),
                    number: string_of(&number),
                    school_suffix: string_of(&suffix),
                    section: string_of(&section),
                },
            )
        },
        None => Err(IdentifierError::MalformedIdentifier),
    }
}

// ---------------------------------------------------------------------------
// The canonical key and its parser
// ---------------------------------------------------------------------------
/// The stable string key of an identifier: the four fields joined by `-`,
/// three fields only when the section is empty.
pub open spec fn key_of(d: Seq<char>, n: Seq<char>, s: Seq<char>, sec: Seq<char>) -> Seq<char> {
    if sec.len() == 0 {
        d + seq!['-'] + n + seq!['-'] + s
    } else {
        d + seq!['-'] + n + seq!['-'] + s + seq!['-'] + sec
    }
}

/// `s` split at every `-`, as `str::split('-')` yields the pieces.
pub open spec fn split_dash(s: Seq<char>) -> Seq<Seq<char>>
    decreases s.len(),
{
    if s.len() == 0 {
        seq![Seq::<char>::empty()]
    } else if s[0] == '-' {
        seq![Seq::<char>::empty()] + split_dash(s.skip(1))
    } else {
        let r = split_dash(s.skip(1));
        seq![seq![s[0]] + r[0]] + r.skip(1)
    }
}

/// The canonical key read back: three pieces leave the section empty, four
/// pieces carry one; any other shape is not a key.
pub open spec fn parse_key_spec(s: Seq<char>) -> Option<
    (Seq<char>, Seq<char>, Seq<char>, Seq<char>),
> {
    let p = split_dash(s);
    if p.len() == 3 {
        Some((p[0], p[1], p[2], Seq::<char>::empty()))
    } else if p.len() == 4 {
        Some((p[0], p[1], p[2], p[3]))
    } else {
        None
    }
}

pub open spec fn no_dash(s: Seq<char>) -> bool {
    forall|i: int| 0 <= i < s.len() ==> s[i] != '-'
}

proof fn lemma_split_dash_nodash(s: Seq<char>)
    requires
        no_dash(s),
    ensures
        split_dash(s) == seq![s],
    decreases s.len(),
{
    if s.len() == 0 {
        assert(seq![Seq::<char>::empty()] =~~= seq![s]);
    } else {
        assert(no_dash(s.skip(1))) by {
            assert(forall|i: int| 0 <= i < s.skip(1).len() ==> s.skip(1)[i] == s[i + 1]);
        }
        lemma_split_dash_nodash(s.skip(1));
        assert(seq![s[0]] + s.skip(1) =~= s);
        assert(seq![seq![s[0]] + s.skip(1)] + split_dash(s.skip(1)).skip(1) =~~= seq![s]);
    }
}

proof fn lemma_split_dash_concat(a: Seq<char>, rest: Seq<char>)
    requires
        no_dash(a),
    ensures
        split_dash(a + seq!['-'] + rest) == seq![a] + split_dash(rest),
    decreases a.len(),
{
    let s = a + seq!['-'] + rest;
    if a.len() == 0 {
        assert(s[0] == '-');
        assert(s.skip(1) =~= rest);
        assert(seq![Seq::<char>::empty()] + split_dash(rest) =~~= seq![a] + split_dash(rest));
    } else {
        assert(s[0] == a[0]);
        assert(s[0] != '-');
        assert(no_dash(a.skip(1))) by {
            assert(forall|i: int| 0 <= i < a.skip(1).len() ==> a.skip(1)[i] == a[i + 1]);
        }
        assert(s.skip(1) =~= a.skip(1) + seq!['-'] + rest);
        lemma_split_dash_concat(a.skip(1), rest);
        let r = split_dash(s.skip(1));
        assert(r == seq![a.skip(1)] + split_dash(rest));
        assert(r[0] == a.skip(1));
        assert(seq![s[0]] + r[0] =~= a);
        assert(r.skip(1) =~~= split_dash(rest));
        assert(seq![seq![s[0]] + r[0]] + r.skip(1) =~~= seq![a] + split_dash(rest));
    }
}

/// Identifier round-trip, the key side: a key rendered from dash-free fields
/// parses back to exactly those fields.
pub proof fn lemma_key_round_trip(d: Seq<char>, n: Seq<char>, s: Seq<char>, sec: Seq<char>)
    requires
        no_dash(d),
        no_dash(n),
        no_dash(s),
        no_dash(sec),
    ensures
        parse_key_spec(key_of(d, n, s, sec)) == Some((d, n, s, sec)),
{
    if sec.len() == 0 {
        let k = key_of(d, n, s, sec);
        assert(k =~= d + seq!['-'] + (n + seq!['-'] + s));
        lemma_split_dash_concat(d, n + seq!['-'] + s);
        lemma_split_dash_concat(n, s);
        lemma_split_dash_nodash(s);
        assert(split_dash(k) =~~= seq![d, n, s]);
        assert(sec =~= Seq::<char>::empty());
    } else {
        let k = key_of(d, n, s, sec);
        assert(k =~= d + seq!['-'] + (n + seq!['-'] + (s + seq!['-'] + sec)));
        lemma_split_dash_concat(d, n + seq!['-'] + (s + seq!['-'] + sec));
        lemma_split_dash_concat(n, s + seq!['-'] + sec);
        lemma_split_dash_concat(s, sec);
        lemma_split_dash_nodash(sec);
        assert(split_dash(k) =~~= seq![d, n, s, sec]);
    }
}

/// The fields that the normalizer yields never hold a dash: the body ends at
/// the first dash and the section at the next.
pub proof fn lemma_normalize_fields_dashless(raw: Seq<char>)
    ensures
        normalize_spec(raw) matches Some(f) ==> no_dash(f.0) && no_dash(f.1) && no_dash(f.2)
            && no_dash(f.3),
{
    if normalize_spec(raw) is Some {
        let w = raw.filter(|c: char| not_space(c));
        let dash = index_of_char(w, '-');
        lemma_index_of_char(w, '-');
        let body = if dash >= 0 {
            w.take(dash)
        } else {
            w
        };
        assert(no_dash(body));
        let rest = if dash >= 0 {
            w.skip(dash + 1)
        } else {
            Seq::<char>::empty()
        };
        let dash2 = index_of_char(rest, '-');
        lemma_index_of_char(rest, '-');
        let section = if dash < 0 {
            Seq::<char>::empty()
        } else if dash2 >= 0 {
            rest.take(dash2)
        } else {
            rest
        };
        assert(no_dash(section));
        let suffix = body.skip(body.len() - 2);
        let stem = body.take(body.len() - 2);
        assert(no_dash(suffix)) by {
            assert(forall|i: int|
                0 <= i < suffix.len() ==> suffix[i] == body[i + body.len() - 2]);
        }
        assert(no_dash(stem));
        let sp = scan_split(stem, 0, false, false);
        lemma_scan_split_range(stem, 0, false, false);
        assert(no_dash(stem.take(sp))) by {
            assert(forall|i: int| 0 <= i < stem.take(sp).len() ==> stem.take(sp)[i] == stem[i]);
        }
        assert(no_dash(stem.skip(sp))) by {
            assert(forall|i: int| 0 <= i < stem.skip(sp).len() ==> stem.skip(sp)[i] == stem[i + sp]);
        }
    }
}

/// Identifier round-trip: any code the normalizer accepts, rendered as its
/// canonical key and parsed back, yields the same identifier.
pub proof fn lemma_identifier_round_trip(raw: Seq<char>)
    ensures
        normalize_spec(raw) matches Some(f) ==> parse_key_spec(key_of(f.0, f.1, f.2, f.3)) == Some(
            f,
        ),
{
    if normalize_spec(raw) is Some {
        let f = normalize_spec(raw)->Some_0;
        lemma_normalize_fields_dashless(raw);
        lemma_key_round_trip(f.0, f.1, f.2, f.3);
    }
}

impl Identifier {
    /// The stable string key of this identifier.
    pub fn key(&self) -> (r: String)
        ensures
            r@ == key_of(self.department@, self.number@, self.school_suffix@, self.section@),
    {
        let mut s = self.department.clone();
        push_char(&mut s, '-');
        let mut s = s.concat(self.number.as_str());
        push_char(&mut s, '-');
        let mut s = s.concat(self.school_suffix.as_str());
        if !self.section.as_str().is_empty() {
            push_char(&mut s, '-');
            let s = s.concat(self.section.as_str());
            proof {
                assert(s@ =~= key_of(
                    self.department@,
                    self.number@,
                    self.school_suffix@,
                    self.section@,
                ));
            }
            s
        } else {
            proof {
                assert(s@ =~= key_of(
                    self.department@,
                    self.number@,
                    self.school_suffix@,
                    self.section@,
                ));
            }
            s
        }
    }
}

/// Parse a canonical key back into an identifier.
pub fn parse_key(s: &str) -> (r: Option<Identifier>)
    ensures
        (match r {
            Some(id) => parse_key_spec(s@) == Some(
                (id.department@, id.number@, id.school_suffix@, id.section@),
            ),
            None => parse_key_spec(s@) is None,
        }),
{
    let v = chars_of(s);
    let vlen = v.len();
    let mut toks: Vec<Vec<char>> = Vec::new();
    let mut i: usize = 0;
    let mut more = true;
    proof {
        assert(v@.skip(0) =~= v@);
        assert(toks.deep_view() + split_dash(v@) =~~= split_dash(v@));
    }
    while more
        invariant
            vlen == v@.len(),
            i <= v@.len(),
            more ==> split_dash(v@) == toks.deep_view() + split_dash(v@.skip(i as int)),
            !more ==> split_dash(v@) == toks.deep_view(),
        decreases v@.len() - i + (if more {
            1int
        } else {
            0int
        }),
    {
        let ghost pre = toks.deep_view();
        match find_char_from(&v, '-', i) {
            Some(j) => {
                let t = sub_vec(&v, i, j);
                proof {
                    assert(no_dash(t@)) by {
                        assert(forall|k: int| 0 <= k < t@.len() ==> t@[k] == v@[i + k]);
                    }
                    assert(v@.skip(i as int) =~= t@ + seq!['-'] + v@.skip(j + 1));
                    lemma_split_dash_concat(t@, v@.skip(j + 1));
                }
                toks.push(t);
                proof {
                    assert(toks.deep_view() =~~= pre + seq![t@]);
                    assert(pre + (seq![t@] + split_dash(v@.skip(j + 1))) =~~= (pre + seq![t@])
                        + split_dash(v@.skip(j + 1)));
                }
                i = j + 1;
            },
            None => {
                let t = sub_vec(&v, i, v.len());
                proof {
                    assert(t@ =~= v@.skip(i as int));
                    assert(no_dash(t@)) by {
                        assert(forall|k: int| 0 <= k < t@.len() ==> t@[k] == v@[i + k]);
                    }
                    lemma_split_dash_nodash(t@);
                }
                toks.push(t);
                proof {
                    assert(toks.deep_view() =~~= pre + seq![t@]);
                }
                more = false;
            },
        }
    }
    if toks.len() == 3 {
        let id = Identifier {
            department: string_of(&toks[0]),
            number: string_of(&toks[1]),
            school_suffix: string_of(&toks[2]),
            section: String::new(),
        };
        Some(id)
    } else if toks.len() == 4 {
        let id = Identifier {
            department: string_of(&toks[0]),
            number: string_of(&toks[1]),
            school_suffix: string_of(&toks[2]),
            section: string_of(&toks[3]),
        };
        Some(id)
    } else {
        None
    }
}

/// Normalize a raw course code straight to its canonical key, as the adapters
/// consume it.
pub fn convert_course_code_to_identifier(code: &str) -> (r: Option<String>)
    ensures
        (match r {
            Some(k) => normalize_spec(code@) matches Some(f) && k@ == key_of(f.0, f.1, f.2, f.3),
            None => normalize_spec(code@) is None,
        }),
{
    match normalize(code) {
        Ok(id) => Some(id.key()),
        Err(_) => None,
    }
}

} // verus!
