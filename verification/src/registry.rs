//! The shared-list code registry: a bijection between short human-typable
//! codes and normalized course-list pairs, independent of the course cache.

use vstd::prelude::*;
use crate::model::{Course, SharedCourseList, courses_eq, course_eq, scl_eq, scl_same, course_dup};
use crate::strutil::{push_char, str_eq, string_of};

verus! {

/// The fixed 20-symbol alphabet codes are drawn from, chosen to exclude
/// visually ambiguous glyphs.
pub open spec fn code_alphabet() -> Seq<char> {
    seq![
        '2',
        '3',
        '4',
        '6',
        '7',
        '9',
        'Q',
        'W',
        'E',
        'R',
        'T',
        'Y',
        'U',
        'P',
        'A',
        'D',
        'F',
        'G',
        'H',
        'X',
    ]
}

/// The position of a symbol in the code alphabet, -1 for any other character.
pub open spec fn sym_val(ch: char) -> int {
    if ch == '2' {
        0
    } else if ch == '3' {
        1
    } else if ch == '4' {
        2
    } else if ch == '6' {
        3
    } else if ch == '7' {
        4
    } else if ch == '9' {
        5
    } else if ch == 'Q' {
        6
    } else if ch == 'W' {
        7
    } else if ch == 'E' {
        8
    } else if ch == 'R' {
        9
    } else if ch == 'T' {
        10
    } else if ch == 'Y' {
        11
    } else if ch == 'U' {
        12
    } else if ch == 'P' {
        13
    } else if ch == 'A' {
        14
    } else if ch == 'D' {
        15
    } else if ch == 'F' {
        16
    } else if ch == 'G' {
        17
    } else if ch == 'H' {
        18
    } else if ch == 'X' {
        19
    } else {
        -1
    }
}

/// A character of the alphabet is exactly one with a position in it.
pub proof fn lemma_sym_val_alphabet(ch: char)
    ensures
        sym_val(ch) >= 0 <==> code_alphabet().contains(ch),
{
    if sym_val(ch) >= 0 {
        assert(code_alphabet()[sym_val(ch)] == ch);
    }
    if code_alphabet().contains(ch) {
        let i = choose|i: int| 0 <= i < code_alphabet().len() && code_alphabet()[i] == ch;
        assert(sym_val(code_alphabet()[i]) == i);
    }
}

/// A well-formed share code: exactly seven characters, all from the alphabet.
pub open spec fn code_wf(c: Seq<char>) -> bool {
    c.len() == 7 && (forall|i: int| 0 <= i < c.len() ==> sym_val(#[trigger] c[i]) >= 0)
}

/// The registry: every code maps to exactly one list and every list to
/// exactly one code, enforced at the single insertion point.
pub struct CodeRegistry {
    pub pairs: Vec<(String, SharedCourseList)>,
}

/// The bijection invariant, and that every stored code is well-formed.
pub open spec fn registry_wf(r: CodeRegistry) -> bool {
    &&& (forall|i: int, j: int|
        0 <= i < r.pairs@.len() && 0 <= j < r.pairs@.len() && i != j ==> (#[trigger] r.pairs@[i]).0@
            != (#[trigger] r.pairs@[j]).0@)
    &&& (forall|i: int, j: int|
        0 <= i < r.pairs@.len() && 0 <= j < r.pairs@.len() && i != j ==> !scl_eq(
            (#[trigger] r.pairs@[i]).1,
            (#[trigger] r.pairs@[j]).1,
        ))
    &&& (forall|i: int| 0 <= i < r.pairs@.len() ==> code_wf((#[trigger] r.pairs@[i]).0@))
}

impl CodeRegistry {
    /// An empty registry.
    pub fn new() -> (r: CodeRegistry)
        ensures
            r.pairs@.len() == 0,
            registry_wf(r),
    {
        CodeRegistry { pairs: Vec::new() }
    }
}

// ---------------------------------------------------------------------------
// Normalization: sort both course lists by identifier key
// ---------------------------------------------------------------------------
/// Lexicographic order on character sequences, as identifier keys compare.
pub open spec fn lex_lt(a: Seq<char>, b: Seq<char>) -> bool
    decreases a.len(),
{
    if b.len() == 0 {
        false
    } else if a.len() == 0 {
        true
    } else if (a[0] as u32) < (b[0] as u32) {
        true
    } else if (a[0] as u32) > (b[0] as u32) {
        false
    } else {
        lex_lt(a.skip(1), b.skip(1))
    }
}

fn str_lt(a: &String, b: &String) -> (r: bool)
    ensures
        r == lex_lt(a@, b@),
{
    let av = crate::strutil::chars_of(a.as_str());
    let bv = crate::strutil::chars_of(b.as_str());
    let mut i: usize = 0;
    proof {
        assert(a@.skip(0) =~= a@);
        assert(b@.skip(0) =~= b@);
    }
    while i < av.len() && i < bv.len()
        invariant
            av@ == a@,
            bv@ == b@,
            i <= av@.len() && i <= bv@.len(),
            lex_lt(a@, b@) == lex_lt(a@.skip(i as int), b@.skip(i as int)),
        decreases av@.len() - i,
    {
        proof {
            let ar = a@.skip(i as int);
            let br = b@.skip(i as int);
            assert(ar.skip(1) =~= a@.skip(i + 1));
            assert(br.skip(1) =~= b@.skip(i + 1));
        }
        if (av[i] as u32) < (bv[i] as u32) {
            return true;
        }
        if (av[i] as u32) > (bv[i] as u32) {
            return false;
        }
        i = i + 1;
    }
    proof {
        assert(a@.skip(i as int).len() == a@.len() - i);
        assert(b@.skip(i as int).len() == b@.len() - i);
    }
    if i < b.as_str().unicode_len() {
        proof {
            assert(a@.skip(i as int).len() == 0);
        }
        true
    } else {
        proof {
            assert(b@.skip(i as int).len() == 0);
        }
        false
    }
}

/// `c` placed into the sorted sequence `s`, after every course whose key is
/// not greater — a stable insertion.
pub open spec fn insert_sorted(c: Course, s: Seq<Course>) -> Seq<Course>
    decreases s.len(),
{
    if s.len() == 0 {
        seq![c]
    } else if lex_lt(c.identifier@, s[0].identifier@) {
        seq![c] + s
    } else {
        seq![s[0]] + insert_sorted(c, s.skip(1))
    }
}

/// The course sequence sorted by identifier key, stably.
pub open spec fn sort_courses_spec(s: Seq<Course>) -> Seq<Course>
    decreases s.len(),
{
    if s.len() == 0 {
        s
    } else {
        insert_sorted(s[0], sort_courses_spec(s.skip(1)))
    }
}

fn insert_course(c: Course, v: Vec<Course>) -> (r: Vec<Course>)
    ensures
        r@ == insert_sorted(c, v@),
    decreases v@.len(),
{
    if v.len() == 0 {
        let mut r: Vec<Course> = Vec::new();
        r.push(c);
        proof {
            assert(r@ =~= seq![c]);
        }
        r
    } else if str_lt(&c.identifier, &v[0].identifier) {
        let mut r = v;
        let ghost v0 = r@;
        r.insert(0, c);
        proof {
            assert(r@ =~= seq![c] + v0);
        }
        r
    } else {
        let mut v = v;
        let ghost v0 = v@;
        let h = v.remove(0);
        proof {
            assert(v@ =~= v0.skip(1));
        }
        let mut r = insert_course(c, v);
        r.insert(0, h);
        proof {
            assert(r@ =~= seq![v0[0]] + insert_sorted(c, v0.skip(1)));
        }
        r
    }
}

/// Sort courses by identifier key, stably, so that submission order never
/// affects a list's stored form.
pub fn sort_courses(v: Vec<Course>) -> (r: Vec<Course>)
    ensures
        r@ == sort_courses_spec(v@),
    decreases v@.len(),
{
    if v.len() == 0 {
        v
    } else {
        let mut v = v;
        let ghost v0 = v@;
        let c = v.remove(0);
        proof {
            assert(v@ =~= v0.skip(1));
        }
        let rest = sort_courses(v);
        insert_course(c, rest)
    }
}

/// Whether `n` is the normalized form of `l`: both course lists sorted by
/// identifier key.
pub open spec fn is_norm_of(n: SharedCourseList, l: SharedCourseList) -> bool {
    n.local_courses@ == sort_courses_spec(l.local_courses@) && n.custom_courses@
        == sort_courses_spec(l.custom_courses@)
}

// ---------------------------------------------------------------------------
// Lookup helpers
// ---------------------------------------------------------------------------
/// Index of the first entry whose stored list holds exactly the given
/// courses, or -1.
pub open spec fn first_list_match(
    pairs: Seq<(String, SharedCourseList)>,
    loc: Seq<Course>,
    cus: Seq<Course>,
) -> int
    decreases pairs.len(),
{
    if pairs.len() == 0 {
        -1
    } else if courses_eq(pairs[0].1.local_courses@, loc) && courses_eq(
        pairs[0].1.custom_courses@,
        cus,
    ) {
        0
    } else {
        let r = first_list_match(pairs.skip(1), loc, cus);
        if r < 0 {
            -1
        } else {
            r + 1
        }
    }
}

pub proof fn lemma_first_list_match(
    pairs: Seq<(String, SharedCourseList)>,
    loc: Seq<Course>,
    cus: Seq<Course>,
)
    ensures
        first_list_match(pairs, loc, cus) < 0 ==> forall|j: int|
            0 <= j < pairs.len() ==> !(courses_eq((#[trigger] pairs[j]).1.local_courses@, loc)
                && courses_eq(pairs[j].1.custom_courses@, cus)),
        first_list_match(pairs, loc, cus) >= 0 ==> {
            &&& first_list_match(pairs, loc, cus) < pairs.len()
            &&& courses_eq(pairs[first_list_match(pairs, loc, cus)].1.local_courses@, loc)
            &&& courses_eq(pairs[first_list_match(pairs, loc, cus)].1.custom_courses@, cus)
            &&& forall|j: int|
                0 <= j < first_list_match(pairs, loc, cus) ==> !(courses_eq(
                    (#[trigger] pairs[j]).1.local_courses@,
                    loc,
                ) && courses_eq(pairs[j].1.custom_courses@, cus))
        },
    decreases pairs.len(),
{
    if pairs.len() > 0 && !(courses_eq(pairs[0].1.local_courses@, loc) && courses_eq(
        pairs[0].1.custom_courses@,
        cus,
    )) {
        lemma_first_list_match(pairs.skip(1), loc, cus);
        let r = first_list_match(pairs.skip(1), loc, cus);
        if r >= 0 {
            assert(pairs[r + 1] == pairs.skip(1)[r]);
            assert(forall|j: int| 1 <= j < r + 1 ==> pairs[j] == pairs.skip(1)[j - 1]);
        } else {
            assert(forall|j: int| 1 <= j < pairs.len() ==> pairs[j] == pairs.skip(1)[j - 1]);
        }
    }
}

/// Whether some entry carries the given code.
pub open spec fn code_present(pairs: Seq<(String, SharedCourseList)>, code: Seq<char>) -> bool {
    exists|j: int| 0 <= j < pairs.len() && (#[trigger] pairs[j]).0@ == code
}

/// Index of the first entry carrying the given code, or -1.
pub open spec fn first_code_match(pairs: Seq<(String, SharedCourseList)>, code: Seq<char>) -> int
    decreases pairs.len(),
{
    if pairs.len() == 0 {
        -1
    } else if pairs[0].0@ == code {
        0
    } else {
        let r = first_code_match(pairs.skip(1), code);
        if r < 0 {
            -1
        } else {
            r + 1
        }
    }
}

pub proof fn lemma_first_code_match(pairs: Seq<(String, SharedCourseList)>, code: Seq<char>)
    ensures
        first_code_match(pairs, code) < 0 ==> !code_present(pairs, code),
        first_code_match(pairs, code) >= 0 ==> {
            &&& first_code_match(pairs, code) < pairs.len()
            &&& pairs[first_code_match(pairs, code)].0@ == code
            &&& forall|j: int|
                0 <= j < first_code_match(pairs, code) ==> (#[trigger] pairs[j]).0@ != code
        },
    decreases pairs.len(),
{
    if pairs.len() > 0 && pairs[0].0@ != code {
        lemma_first_code_match(pairs.skip(1), code);
        let r = first_code_match(pairs.skip(1), code);
        if r >= 0 {
            assert(pairs[r + 1] == pairs.skip(1)[r]);
            assert(forall|j: int| 1 <= j < r + 1 ==> pairs[j] == pairs.skip(1)[j - 1]);
        } else {
            assert forall|j: int| 0 <= j < pairs.len() implies (#[trigger] pairs[j]).0@
                != code by {
                if j >= 1 {
                    assert(pairs[j] == pairs.skip(1)[j - 1]);
                }
            }
        }
    }
}

fn find_code(pairs: &Vec<(String, SharedCourseList)>, code: &String) -> (r: Option<usize>)
    ensures
        (match r {
            Some(j) => first_code_match(pairs@, code@) == j as int && j < pairs@.len(),
            None => !code_present(pairs@, code@),
        }),
{
    let mut m: usize = 0;
    while m < pairs.len()
        invariant
            m <= pairs@.len(),
            forall|j: int| 0 <= j < m ==> (#[trigger] pairs@[j]).0@ != code@,
        decreases pairs@.len() - m,
    {
        if str_eq(pairs[m].0.as_str(), code.as_str()) {
            proof {
                lemma_first_code_match(pairs@, code@);
            }
            return Some(m);
        }
        m = m + 1;
    }
    proof {
        lemma_first_code_match(pairs@, code@);
        if code_present(pairs@, code@) {
            assert(first_code_match(pairs@, code@) >= 0);
        }
    }
    None
}

// ---------------------------------------------------------------------------
// Code generation
// ---------------------------------------------------------------------------
/// Relies on `rand::Rng::gen_range` over `0..n`: the result lies within the
/// half-open range; nothing more is assumed of a random draw.
#[verifier::external_body]
fn random_below(n: usize) -> (r: usize)
    requires
        n > 0,
    ensures
        r < n,
{
    rand::Rng::gen_range(&mut rand::thread_rng(), 0..n)
}

fn alphabet_char(i: usize) -> (c: char)
    requires
        i < 20,
    ensures
        c == code_alphabet()[i as int],
        code_alphabet().contains(c),
{
    let c = match i {
        0 => '2',
        1 => '3',
        2 => '4',
        3 => '6',
        4 => '7',
        5 => '9',
        6 => 'Q',
        7 => 'W',
        8 => 'E',
        9 => 'R',
        10 => 'T',
        11 => 'Y',
        12 => 'U',
        13 => 'P',
        14 => 'A',
        15 => 'D',
        16 => 'F',
        17 => 'G',
        18 => 'H',
        _ => 'X',
    };
    proof {
        assert(code_alphabet()[i as int] == c);
        assert(sym_val(c) == i as int);
    }
    c
}

// ---------------------------------------------------------------------------
// Codes as base-20 numerals, for the deterministic fallback
// ---------------------------------------------------------------------------
/// The numeric value of a code read as a base-20 numeral.
pub open spec fn decode20(c: Seq<char>) -> int
    decreases c.len(),
{
    if c.len() == 0 {
        0
    } else {
        decode20(c.drop_last()) * 20 + sym_val(c.last())
    }
}

/// Twenty to the `n`.
pub open spec fn pow20(n: nat) -> int
    decreases n,
{
    if n == 0 {
        1
    } else {
        20 * pow20((n - 1) as nat)
    }
}

/// Digit strings of valid symbols decode into the expected range.
pub proof fn lemma_decode20_range(c: Seq<char>)
    requires
        forall|i: int| 0 <= i < c.len() ==> sym_val(#[trigger] c[i]) >= 0,
    ensures
        0 <= decode20(c) < pow20(c.len()),
    decreases c.len(),
{
    if c.len() > 0 {
        assert(forall|i: int| 0 <= i < c.drop_last().len() ==> c.drop_last()[i] == c[i]);
        lemma_decode20_range(c.drop_last());
        assert(sym_val(c.last()) < 20);
        assert(decode20(c.drop_last()) * 20 + sym_val(c.last()) < pow20(c.len())) by (nonlinear_arith)
            requires
                decode20(c.drop_last()) <= pow20(c.drop_last().len()) - 1,
                sym_val(c.last()) < 20,
                pow20(c.len()) == 20 * pow20(c.drop_last().len()),
        ;
        assert(decode20(c.drop_last()) * 20 >= 0) by (nonlinear_arith)
            requires
                decode20(c.drop_last()) >= 0,
        ;
    }
}

/// Two equally long digit strings of valid symbols with one value are one
/// string.
pub proof fn lemma_decode20_injective(a: Seq<char>, b: Seq<char>)
    requires
        a.len() == b.len(),
        forall|i: int| 0 <= i < a.len() ==> sym_val(#[trigger] a[i]) >= 0,
        forall|i: int| 0 <= i < b.len() ==> sym_val(#[trigger] b[i]) >= 0,
        decode20(a) == decode20(b),
    ensures
        a == b,
    decreases a.len(),
{
    if a.len() == 0 {
        assert(a =~= b);
    } else {
        let sa = sym_val(a.last());
        let sb = sym_val(b.last());
        assert(decode20(a.drop_last()) * 20 + sa == decode20(b.drop_last()) * 20 + sb);
        assert(0 <= sa < 20 && 0 <= sb < 20);
        assert(decode20(a.drop_last()) == decode20(b.drop_last()) && sa == sb) by (nonlinear_arith)
            requires
                decode20(a.drop_last()) * 20 + sa == decode20(b.drop_last()) * 20 + sb,
                0 <= sa < 20,
                0 <= sb < 20,
        ;
        assert(a.last() == b.last());
        assert(forall|i: int| 0 <= i < a.drop_last().len() ==> a.drop_last()[i] == a[i]);
        assert(forall|i: int| 0 <= i < b.drop_last().len() ==> b.drop_last()[i] == b[i]);
        lemma_decode20_injective(a.drop_last(), b.drop_last());
        assert(a =~= a.drop_last().push(a.last()));
        assert(b =~= b.drop_last().push(b.last()));
    }
}

/// The symbol at one alphabet position.
pub open spec fn sym_char(v: int) -> char {
    code_alphabet()[v]
}

/// The `len`-digit base-20 numeral for `v`.
pub open spec fn encode20(v: int, len: nat) -> Seq<char>
    decreases len,
{
    if len == 0 {
        Seq::<char>::empty()
    } else {
        encode20(v / 20, (len - 1) as nat).push(sym_char(v % 20))
    }
}

/// Encoding then decoding a value in range gives the value back, through
/// valid symbols only.
pub proof fn lemma_encode20_decodes(v: int, len: nat)
    requires
        0 <= v < pow20(len),
    ensures
        encode20(v, len).len() == len,
        forall|i: int| 0 <= i < len ==> sym_val(#[trigger] encode20(v, len)[i]) >= 0,
        decode20(encode20(v, len)) == v,
    decreases len,
{
    if len > 0 {
        assert(0 <= v / 20 < pow20((len - 1) as nat)) by (nonlinear_arith)
            requires
                0 <= v < pow20(len),
                pow20(len) == 20 * pow20((len - 1) as nat),
        ;
        lemma_encode20_decodes(v / 20, (len - 1) as nat);
        let e = encode20(v, len);
        let m = v % 20;
        assert(0 <= m < 20);
        assert(sym_val(sym_char(m)) == m);
        assert(e.drop_last() =~= encode20(v / 20, (len - 1) as nat));
        assert(e.last() == sym_char(m));
        assert(decode20(e) == (v / 20) * 20 + m);
        assert((v / 20) * 20 + m == v) by (nonlinear_arith)
            requires
                m == v % 20,
        ;
        assert forall|i: int| 0 <= i < len implies sym_val(#[trigger] e[i]) >= 0 by {
            if i < len - 1 {
                assert(e[i] == encode20(v / 20, (len - 1) as nat)[i]);
            } else {
                assert(e[i] == sym_char(m));
            }
        }
    }
}

fn sym_char_exec(v: usize) -> (c: char)
    requires
        v < 20,
    ensures
        c == sym_char(v as int),
        sym_val(c) == v as int,
{
    alphabet_char(v)
}

fn encode_rec(v: usize, len: usize) -> (r: Vec<char>)
    ensures
        r@ == encode20(v as int, len as nat),
    decreases len,
{
    if len == 0 {
        let r: Vec<char> = Vec::new();
        proof {
            assert(r@ =~= encode20(v as int, 0));
        }
        r
    } else {
        let mut r = encode_rec(v / 20, len - 1);
        r.push(sym_char_exec(v % 20));
        r
    }
}

/// Seven base-20 digits cover the whole code space.
pub proof fn lemma_pow20_7()
    ensures
        pow20(7) == 1280000000,
{
    reveal_with_fuel(pow20, 8);
}

/// The seven-symbol code for a serial number, the deterministic fallback's
/// probe order.
fn encode_code(v: usize) -> (r: String)
    requires
        v < 1280000000,
    ensures
        r@ == encode20(v as int, 7),
        code_wf(r@),
        decode20(r@) == v as int,
{
    proof {
        lemma_pow20_7();
        lemma_encode20_decodes(v as int, 7);
    }
    let chars = encode_rec(v, 7);
    string_of(&chars)
}

/// Draw one candidate code: seven characters, uniformly from the alphabet.
fn draw_code() -> (r: String)
    ensures
        code_wf(r@),
{
    let mut s = String::new();
    let mut i: usize = 0;
    while i < 7
        invariant
            i <= 7,
            s@.len() == i,
            forall|k: int| 0 <= k < i ==> code_alphabet().contains(#[trigger] s@[k]),
        decreases 7 - i,
    {
        let d = random_below(20);
        push_char(&mut s, alphabet_char(d));
        i = i + 1;
    }
    s
}

// ---------------------------------------------------------------------------
// assign and lookup
// ---------------------------------------------------------------------------
/// Everything `generate_unique_code` promises of one call: the code is
/// well-formed; the registry either stays identical (when a normalization of
/// the list was already stored, whose code is returned) or grows by exactly
/// that entry under a code fresh to it; old entries are never touched.
pub open spec fn assign_post(
    list: SharedCourseList,
    old_r: CodeRegistry,
    code: String,
    new_r: CodeRegistry,
) -> bool {
    let loc = sort_courses_spec(list.local_courses@);
    let cus = sort_courses_spec(list.custom_courses@);
    let f = first_list_match(old_r.pairs@, loc, cus);
    &&& code_wf(code@)
    &&& (if f >= 0 {
        new_r.pairs@ == old_r.pairs@ && code@ == old_r.pairs@[f].0@
    } else {
        &&& new_r.pairs@.len() == old_r.pairs@.len() + 1
        &&& (forall|j: int|
            0 <= j < old_r.pairs@.len() ==> #[trigger] new_r.pairs@[j] == old_r.pairs@[j])
        &&& new_r.pairs@.last().0@ == code@
        &&& courses_eq(new_r.pairs@.last().1.local_courses@, loc)
        &&& courses_eq(new_r.pairs@.last().1.custom_courses@, cus)
        &&& !code_present(old_r.pairs@, code@)
    })
}

/// Assign a code to a course-list pair: the same pair (up to submission
/// order) always resolves to one code, a new pair gets a fresh random code,
/// drawn again for as long as it collides.
pub fn generate_unique_code(shared_course_list: SharedCourseList, code_registry: CodeRegistry)
    -> (r: (String, CodeRegistry))
    requires
        registry_wf(code_registry),
        code_registry.pairs@.len() < 1280000000,
    ensures
        registry_wf(r.1),
        assign_post(shared_course_list, code_registry, r.0, r.1),
{
    let ghost loc = sort_courses_spec(shared_course_list.local_courses@);
    let ghost cus = sort_courses_spec(shared_course_list.custom_courses@);
    let SharedCourseList { local_courses, custom_courses } = shared_course_list;
    let norm = SharedCourseList {
        local_courses: sort_courses(local_courses),
        custom_courses: sort_courses(custom_courses),
    };
    // does a normalization of this list already have a code?
    let mut m: usize = 0;
    proof {
        lemma_first_list_match(code_registry.pairs@, loc, cus);
    }
    while m < code_registry.pairs.len()
        invariant
            registry_wf(code_registry),
            loc == sort_courses_spec(shared_course_list.local_courses@),
            cus == sort_courses_spec(shared_course_list.custom_courses@),
            loc == norm.local_courses@,
            cus == norm.custom_courses@,
            m <= code_registry.pairs@.len(),
            forall|j: int|
                0 <= j < m ==> !(courses_eq(
                    (#[trigger] code_registry.pairs@[j]).1.local_courses@,
                    loc,
                ) && courses_eq(code_registry.pairs@[j].1.custom_courses@, cus)),
        decreases code_registry.pairs@.len() - m,
    {
        if scl_same(&code_registry.pairs[m].1, &norm) {
            proof {
                assert(courses_eq(code_registry.pairs@[m as int].1.local_courses@, loc));
                assert(courses_eq(code_registry.pairs@[m as int].1.custom_courses@, cus));
                lemma_first_list_match(code_registry.pairs@, loc, cus);
                assert(first_list_match(code_registry.pairs@, loc, cus) == m as int);
            }
            let code = code_registry.pairs[m].0.clone();
            proof {
                assert(registry_wf(code_registry));
                assert(code@ == code_registry.pairs@[m as int].0@);
                assert(code_wf(code@));
                assert(assign_post(shared_course_list, code_registry, code, code_registry));
            }
            return (code, code_registry);
        }
        m = m + 1;
    }
    proof {
        lemma_first_list_match(code_registry.pairs@, loc, cus);
    }
    // draw at random a few times, then probe the code space in serial order:
    // with fewer entries than codes, a free code is always reached
    let ghost r0 = code_registry.pairs@;
    let mut reg = code_registry;
    let mut tries: usize = 0;
    while tries < 16
        invariant
            registry_wf(reg),
            loc == sort_courses_spec(shared_course_list.local_courses@),
            cus == sort_courses_spec(shared_course_list.custom_courses@),
            loc == norm.local_courses@,
            cus == norm.custom_courses@,
            reg.pairs@ == r0,
            code_registry.pairs@ == r0,
            first_list_match(r0, loc, cus) < 0,
        decreases 16 - tries,
    {
        let attempt = draw_code();
        match find_code(&reg.pairs, &attempt) {
            Some(_) => {
                tries = tries + 1;
            },
            None => {
                reg.pairs.push((attempt.clone(), norm));
                proof {
                    assert(courses_eq(norm.local_courses@, loc)) by {
                        assert forall|q: int| 0 <= q < loc.len() implies course_eq(
                            #[trigger] loc[q],
                            loc[q],
                        ) by {}
                    }
                    assert(courses_eq(norm.custom_courses@, cus)) by {
                        assert forall|q: int| 0 <= q < cus.len() implies course_eq(
                            #[trigger] cus[q],
                            cus[q],
                        ) by {}
                    }
                    assert(reg.pairs@.last().0@ == attempt@);
                    lemma_insert_keeps_wf(r0, reg.pairs@, loc, cus);
                    assert(forall|j: int|
                        0 <= j < r0.len() ==> #[trigger] reg.pairs@[j] == r0[j]);
                }
                return (attempt, reg);
            },
        }
    }
    let n = reg.pairs.len();
    let mut i: usize = 0;
    while i <= n
        invariant
            registry_wf(reg),
            loc == sort_courses_spec(shared_course_list.local_courses@),
            cus == sort_courses_spec(shared_course_list.custom_courses@),
            loc == norm.local_courses@,
            cus == norm.custom_courses@,
            reg.pairs@ == r0,
            code_registry.pairs@ == r0,
            first_list_match(r0, loc, cus) < 0,
            n == r0.len(),
            n < 1280000000,
            i <= n + 1,
            forall|j: int| 0 <= j < i ==> code_present(r0, encode20(j, 7)),
        decreases n + 1 - i,
    {
        let attempt = encode_code(i);
        match find_code(&reg.pairs, &attempt) {
            Some(f) => {
                proof {
                    lemma_first_code_match(r0, attempt@);
                    assert(code_present(r0, encode20(i as int, 7)));
                }
                i = i + 1;
            },
            None => {
                reg.pairs.push((attempt.clone(), norm));
                proof {
                    assert(courses_eq(norm.local_courses@, loc)) by {
                        assert forall|q: int| 0 <= q < loc.len() implies course_eq(
                            #[trigger] loc[q],
                            loc[q],
                        ) by {}
                    }
                    assert(courses_eq(norm.custom_courses@, cus)) by {
                        assert forall|q: int| 0 <= q < cus.len() implies course_eq(
                            #[trigger] cus[q],
                            cus[q],
                        ) by {}
                    }
                    assert(reg.pairs@.last().0@ == attempt@);
                    lemma_insert_keeps_wf(r0, reg.pairs@, loc, cus);
                    assert(forall|j: int|
                        0 <= j < r0.len() ==> #[trigger] reg.pairs@[j] == r0[j]);
                }
                return (attempt, reg);
            },
        }
    }
    proof {
        lemma_free_code_exists(r0);
        let j = choose|j: int| 0 <= j <= r0.len() && !code_present(r0, #[trigger] encode20(j, 7));
        assert(code_present(r0, encode20(j, 7)));
    }
    (String::new(), reg)
}

/// Appending a fresh well-formed code with a list stored under no entry
/// keeps the registry a bijection.
proof fn lemma_insert_keeps_wf(
    r0: Seq<(String, SharedCourseList)>,
    np: Seq<(String, SharedCourseList)>,
    loc: Seq<Course>,
    cus: Seq<Course>,
)
    requires
        np.len() == r0.len() + 1,
        forall|j: int| 0 <= j < r0.len() ==> #[trigger] np[j] == r0[j],
        forall|i: int, j: int|
            0 <= i < r0.len() && 0 <= j < r0.len() && i != j ==> (#[trigger] r0[i]).0@ != (
            #[trigger] r0[j]).0@,
        forall|i: int, j: int|
            0 <= i < r0.len() && 0 <= j < r0.len() && i != j ==> !scl_eq(
                (#[trigger] r0[i]).1,
                (#[trigger] r0[j]).1,
            ),
        forall|i: int| 0 <= i < r0.len() ==> code_wf((#[trigger] r0[i]).0@),
        code_wf(np.last().0@),
        !code_present(r0, np.last().0@),
        courses_eq(np.last().1.local_courses@, loc),
        courses_eq(np.last().1.custom_courses@, cus),
        first_list_match(r0, loc, cus) < 0,
    ensures
        forall|i: int, j: int|
            0 <= i < np.len() && 0 <= j < np.len() && i != j ==> (#[trigger] np[i]).0@ != (
            #[trigger] np[j]).0@,
        forall|i: int, j: int|
            0 <= i < np.len() && 0 <= j < np.len() && i != j ==> !scl_eq(
                (#[trigger] np[i]).1,
                (#[trigger] np[j]).1,
            ),
        forall|i: int| 0 <= i < np.len() ==> code_wf((#[trigger] np[i]).0@),
{
    lemma_first_list_match(r0, loc, cus);
    assert forall|i: int, j: int|
        0 <= i < np.len() && 0 <= j < np.len() && i != j implies (#[trigger] np[i]).0@ != (
    #[trigger] np[j]).0@ by {
        if i == r0.len() as int {
            assert(np[j] == r0[j]);
        } else if j == r0.len() as int {
            assert(np[i] == r0[i]);
        }
    }
    assert forall|i: int, j: int|
        0 <= i < np.len() && 0 <= j < np.len() && i != j implies !scl_eq(
        (#[trigger] np[i]).1,
        (#[trigger] np[j]).1,
    ) by {
        if i == r0.len() as int {
            assert(np[j] == r0[j]);
            assert(!(courses_eq(r0[j].1.local_courses@, loc) && courses_eq(
                r0[j].1.custom_courses@,
                cus,
            )));
        } else if j == r0.len() as int {
            assert(np[i] == r0[i]);
            assert(!(courses_eq(r0[i].1.local_courses@, loc) && courses_eq(
                r0[i].1.custom_courses@,
                cus,
            )));
        }
    }
}

/// With fewer entries than seven-symbol codes, some serial probe is free:
/// each taken probe names a distinct entry, and there is one more probe than
/// there are entries.
proof fn lemma_free_code_exists(pairs: Seq<(String, SharedCourseList)>)
    requires
        pairs.len() < 1280000000,
        forall|i: int, j: int|
            0 <= i < pairs.len() && 0 <= j < pairs.len() && i != j ==> (#[trigger] pairs[i]).0@
                != (#[trigger] pairs[j]).0@,
    ensures
        exists|j: int| 0 <= j <= pairs.len() && !code_present(pairs, #[trigger] encode20(j, 7)),
{
    if exists|j: int| 0 <= j <= pairs.len() && !code_present(pairs, #[trigger] encode20(j, 7)) {
        return ;
    }
    assert(forall|j: int| 0 <= j <= pairs.len() ==> code_present(pairs, #[trigger] encode20(j, 7)));
    let n = pairs.len() as int;
    lemma_pow20_7();
    let es = Seq::<int>::new((n + 1) as nat, |j: int| first_code_match(pairs, encode20(j, 7)));
    assert forall|j: int| 0 <= j <= n implies 0 <= #[trigger] es[j] < n by {
        lemma_first_code_match(pairs, encode20(j, 7));
        if first_code_match(pairs, encode20(j, 7)) < 0 {
            assert(!code_present(pairs, encode20(j, 7)));
        }
    }
    assert(es.no_duplicates()) by {
        assert forall|a: int, b: int|
            0 <= a < es.len() && 0 <= b < es.len() && a != b implies es[a] != es[b] by {
            if es[a] == es[b] {
                lemma_first_code_match(pairs, encode20(a, 7));
                lemma_first_code_match(pairs, encode20(b, 7));
                assert(pairs[es[a]].0@ == encode20(a, 7));
                assert(pairs[es[b]].0@ == encode20(b, 7));
                lemma_encode20_decodes(a, 7);
                lemma_encode20_decodes(b, 7);
                assert(decode20(encode20(a, 7)) == a);
                assert(decode20(encode20(b, 7)) == b);
            }
        }
    }
    es.unique_seq_to_set();
    assert(es.to_set().subset_of(vstd::set_lib::set_int_range(0, n))) by {
        assert forall|x: int| es.to_set().contains(x) implies vstd::set_lib::set_int_range(
            0,
            n,
        ).contains(x) by {
            let j = choose|j: int| 0 <= j < es.len() && es[j] == x;
            assert(0 <= es[j] < n);
        }
    }
    vstd::set_lib::lemma_int_range(0, n);
    vstd::set_lib::lemma_len_subset(es.to_set(), vstd::set_lib::set_int_range(0, n));
    assert(n + 1 <= n);
}

// ---------------------------------------------------------------------------
// Laws
// ---------------------------------------------------------------------------
/// Holding the same courses is transitive across a shared middle sequence.
proof fn lemma_courses_eq_trans(x: Seq<Course>, a: Seq<Course>, b: Seq<Course>)
    requires
        courses_eq(x, a),
        courses_eq(x, b),
    ensures
        courses_eq(a, b),
{
    assert forall|i: int| 0 <= i < a.len() implies course_eq(a[i], b[i]) by {
        assert(course_eq(x[i], a[i]));
        assert(course_eq(x[i], b[i]));
        assert forall|k: int|
            0 <= k < a[i].timing@.len() implies crate::model::timing_eq(
            a[i].timing@[k],
            b[i].timing@[k],
        ) by {
            assert(crate::model::timing_eq(x[i].timing@[k], a[i].timing@[k]));
            assert(crate::model::timing_eq(x[i].timing@[k], b[i].timing@[k]));
        }
    }
}

/// An entry holding the code that one assignment returned, with the list it
/// stored.
spec fn entry_for(r1: CodeRegistry, l: SharedCourseList, c: String, j: int) -> bool {
    &&& 0 <= j < r1.pairs@.len()
    &&& r1.pairs@[j].0@ == c@
    &&& courses_eq(r1.pairs@[j].1.local_courses@, sort_courses_spec(l.local_courses@))
    &&& courses_eq(r1.pairs@[j].1.custom_courses@, sort_courses_spec(l.custom_courses@))
}

/// After an assignment, the returned code names an entry holding a
/// normalization of the list.
proof fn lemma_assign_names_entry(l: SharedCourseList, r0: CodeRegistry, c: String, r1: CodeRegistry)
    requires
        assign_post(l, r0, c, r1),
    ensures
        exists|j: int| #[trigger] entry_for(r1, l, c, j),
{
    let loc = sort_courses_spec(l.local_courses@);
    let cus = sort_courses_spec(l.custom_courses@);
    let f = first_list_match(r0.pairs@, loc, cus);
    if f >= 0 {
        lemma_first_list_match(r0.pairs@, loc, cus);
        assert(entry_for(r1, l, c, f));
    } else {
        assert(entry_for(r1, l, c, r1.pairs@.len() - 1));
    }
}

/// Registry bijection, distinctness: two lists that normalize differently
/// never receive one code, across two consecutive assignments.
pub proof fn lemma_registry_bijection(
    l1: SharedCourseList,
    r0: CodeRegistry,
    c1: String,
    r1: CodeRegistry,
    l2: SharedCourseList,
    c2: String,
    r2: CodeRegistry,
)
    requires
        registry_wf(r1),
        assign_post(l1, r0, c1, r1),
        assign_post(l2, r1, c2, r2),
        !(courses_eq(sort_courses_spec(l1.local_courses@), sort_courses_spec(l2.local_courses@))
            && courses_eq(
            sort_courses_spec(l1.custom_courses@),
            sort_courses_spec(l2.custom_courses@),
        )),
    ensures
        c1@ != c2@,
{
    lemma_assign_names_entry(l1, r0, c1, r1);
    let j1 = choose|j: int| #[trigger] entry_for(r1, l1, c1, j);
    let loc2 = sort_courses_spec(l2.local_courses@);
    let cus2 = sort_courses_spec(l2.custom_courses@);
    let f2 = first_list_match(r1.pairs@, loc2, cus2);
    if f2 >= 0 {
        lemma_first_list_match(r1.pairs@, loc2, cus2);
        if c1@ == c2@ {
            assert(r1.pairs@[j1].0@ == r1.pairs@[f2].0@);
            assert(j1 == f2);
            lemma_courses_eq_trans(
                r1.pairs@[j1].1.local_courses@,
                sort_courses_spec(l1.local_courses@),
                loc2,
            );
            lemma_courses_eq_trans(
                r1.pairs@[j1].1.custom_courses@,
                sort_courses_spec(l1.custom_courses@),
                cus2,
            );
        }
    } else {
        if c1@ == c2@ {
            assert(!code_present(r1.pairs@, c2@));
            assert(r1.pairs@[j1].0@ == c1@);
        }
    }
}

/// Registry bijection, idempotence: assigning one list twice returns one
/// code both times and leaves the registry as it was after the first call.
pub proof fn lemma_registry_assign_idempotent(
    l: SharedCourseList,
    r0: CodeRegistry,
    c1: String,
    r1: CodeRegistry,
    c2: String,
    r2: CodeRegistry,
)
    requires
        registry_wf(r1),
        assign_post(l, r0, c1, r1),
        assign_post(l, r1, c2, r2),
    ensures
        c2@ == c1@,
        r2.pairs@ == r1.pairs@,
{
    lemma_assign_names_entry(l, r0, c1, r1);
    let j1 = choose|j: int| #[trigger] entry_for(r1, l, c1, j);
    let loc = sort_courses_spec(l.local_courses@);
    let cus = sort_courses_spec(l.custom_courses@);
    let f2 = first_list_match(r1.pairs@, loc, cus);
    lemma_first_list_match(r1.pairs@, loc, cus);
    assert(f2 >= 0) by {
        if f2 < 0 {
            assert(!(courses_eq(r1.pairs@[j1].1.local_courses@, loc) && courses_eq(
                r1.pairs@[j1].1.custom_courses@,
                cus,
            )));
        }
    }
    assert(f2 == j1) by {
        if f2 != j1 {
            lemma_courses_eq_trans(loc, r1.pairs@[f2].1.local_courses@, r1.pairs@[j1].1.local_courses@);
            lemma_courses_eq_trans(
                cus,
                r1.pairs@[f2].1.custom_courses@,
                r1.pairs@[j1].1.custom_courses@,
            );
            assert(scl_eq(r1.pairs@[f2].1, r1.pairs@[j1].1));
        }
    }
}

/// Code alphabet: every code an assignment returns is exactly seven
/// characters, drawn from the fixed twenty-symbol alphabet.
pub proof fn lemma_code_alphabet(
    l: SharedCourseList,
    r0: CodeRegistry,
    c: String,
    r1: CodeRegistry,
)
    requires
        assign_post(l, r0, c, r1),
    ensures
        c@.len() == 7,
        forall|i: int| 0 <= i < c@.len() ==> code_alphabet().contains(#[trigger] c@[i]),
{
    assert forall|i: int| 0 <= i < c@.len() implies code_alphabet().contains(#[trigger] c@[i]) by {
        lemma_sym_val_alphabet(c@[i]);
    }
}

/// Look a code up: a pure read of the registry.
pub fn get_course_list(code: String, code_registry: &CodeRegistry) -> (r: Option<SharedCourseList>)
    ensures
        (match r {
            Some(l) => first_code_match(code_registry.pairs@, code@) >= 0 && scl_eq(
                code_registry.pairs@[first_code_match(code_registry.pairs@, code@)].1,
                l,
            ),
            None => !code_present(code_registry.pairs@, code@),
        }),
{
    match find_code(&code_registry.pairs, &code) {
        Some(j) => {
            let e = &code_registry.pairs[j].1;
            let mut loc: Vec<Course> = Vec::new();
            let mut i: usize = 0;
            while i < e.local_courses.len()
                invariant
                    i <= e.local_courses@.len(),
                    loc@.len() == i,
                    forall|k: int|
                        0 <= k < i ==> course_eq(e.local_courses@[k], #[trigger] loc@[k]),
                decreases e.local_courses@.len() - i,
            {
                loc.push(course_dup(&e.local_courses[i]));
                i = i + 1;
            }
            let mut cus: Vec<Course> = Vec::new();
            let mut i2: usize = 0;
            while i2 < e.custom_courses.len()
                invariant
                    i2 <= e.custom_courses@.len(),
                    cus@.len() == i2,
                    forall|k: int|
                        0 <= k < i2 ==> course_eq(e.custom_courses@[k], #[trigger] cus@[k]),
                decreases e.custom_courses@.len() - i2,
            {
                cus.push(course_dup(&e.custom_courses[i2]));
                i2 = i2 + 1;
            }
            Some(SharedCourseList { local_courses: loc, custom_courses: cus })
        },
        None => None,
    }
}

} // verus!
