//! Character-level string operations used throughout the library.
//!
//! Every operation works on the characters of a string (its view `Seq<char>`);
//! substring positions are therefore character positions.
use vstd::prelude::*;

verus! {

broadcast use vstd::string::group_string_axioms;

/// `c` is a white-space character in the sense of `char::is_whitespace`
/// (the Unicode `White_Space` property).
pub open spec fn is_ws(c: char) -> bool {
    let u = c as u32;
    ||| 0x09 <= u <= 0x0d
    ||| u == 0x20
    ||| u == 0x85
    ||| u == 0xa0
    ||| u == 0x1680
    ||| 0x2000 <= u <= 0x200a
    ||| u == 0x2028
    ||| u == 0x2029
    ||| u == 0x202f
    ||| u == 0x205f
    ||| u == 0x3000
}

/// `s` without its leading white space.
pub open spec fn trim_start(s: Seq<char>) -> Seq<char>
    decreases s.len(),
{
    if s.len() > 0 && is_ws(s[0]) {
        trim_start(s.drop_first())
    } else {
        s
    }
}

/// `s` without its trailing white space.
pub open spec fn trim_end(s: Seq<char>) -> Seq<char>
    decreases s.len(),
{
    if s.len() > 0 && is_ws(s.last()) {
        trim_end(s.drop_last())
    } else {
        s
    }
}

/// `s` without leading and trailing white space (what `str::trim` returns).
pub open spec fn trimmed(s: Seq<char>) -> Seq<char> {
    trim_end(trim_start(s))
}

/// `p` occurs in `s` at position `i`.
pub open spec fn occurs_at(s: Seq<char>, p: Seq<char>, i: int) -> bool {
    0 <= i && i + p.len() <= s.len() && s.subrange(i, i + p.len()) == p
}

/// The first position at or after `k` where `p` occurs in `s`.
pub open spec fn find_from(s: Seq<char>, p: Seq<char>, k: int) -> Option<int>
    decreases s.len() + 1 - k,
{
    if k < 0 || k + p.len() > s.len() {
        None
    } else if occurs_at(s, p, k) {
        Some(k)
    } else {
        find_from(s, p, k + 1)
    }
}

/// The first position where `p` occurs in `s` (what `str::find` locates).
pub open spec fn find_first(s: Seq<char>, p: Seq<char>) -> Option<int> {
    find_from(s, p, 0)
}

/// `p` occurs somewhere in `s`.
pub open spec fn contains(s: Seq<char>, p: Seq<char>) -> bool {
    find_first(s, p) is Some
}

/// `s` begins with `p`.
pub open spec fn starts_with(s: Seq<char>, p: Seq<char>) -> bool {
    p.len() <= s.len() && s.subrange(0, p.len() as int) == p
}

/// `s` ends with `p`.
pub open spec fn ends_with(s: Seq<char>, p: Seq<char>) -> bool {
    p.len() <= s.len() && s.subrange(s.len() - p.len(), s.len() as int) == p
}

/// `c` mapped to lower case if it is an ASCII upper-case letter, as a code point.
pub open spec fn ascii_lower(c: char) -> u32 {
    let u = c as u32;
    if 65 <= u <= 90 {
        (u + 32) as u32
    } else {
        u
    }
}

/// `a` and `b` are equal when ASCII letters are compared without regard to case
/// (what `str::eq_ignore_ascii_case` decides).
pub open spec fn eq_ignore_ascii_case(a: Seq<char>, b: Seq<char>) -> bool {
    a.len() == b.len() && forall|i: int| 0 <= i < a.len() ==> ascii_lower(#[trigger] a[i]) == ascii_lower(b[i])
}

/// Lexicographic order on code points, the order of `String`'s `Ord`.
pub open spec fn lex_le(a: Seq<char>, b: Seq<char>) -> bool
    decreases a.len(),
{
    if a.len() == 0 {
        true
    } else if b.len() == 0 {
        false
    } else if (a[0] as u32) < (b[0] as u32) {
        true
    } else if (a[0] as u32) > (b[0] as u32) {
        false
    } else {
        lex_le(a.drop_first(), b.drop_first())
    }
}

/// The pieces of `s[k..]` between the occurrences of `p`, found from the left without
/// overlap (what `str::split` gives for a non-empty pattern).
pub open spec fn split_from(s: Seq<char>, p: Seq<char>, k: int) -> Seq<Seq<char>>
    decreases s.len() - k,
{
    if p.len() == 0 || k < 0 || k > s.len() {
        seq![s.subrange(k, s.len() as int)]
    } else {
        match find_from(s, p, k) {
            Some(i) => if k <= i && i + p.len() <= s.len() {
                seq![s.subrange(k, i)] + split_from(s, p, i + p.len())
            } else {
                seq![s.subrange(k, s.len() as int)]
            },
            None => seq![s.subrange(k, s.len() as int)],
        }
    }
}

/// The pieces of `s` between the occurrences of the non-empty pattern `p`.
pub open spec fn split_all(s: Seq<char>, p: Seq<char>) -> Seq<Seq<char>> {
    split_from(s, p, 0)
}

/// The values of a sequence of strings.
pub open spec fn string_values(v: Seq<String>) -> Seq<Seq<char>> {
    v.map_values(|s: String| s@)
}

/// A found position lies where the search looked and holds the pattern; nothing before
/// it (from `k`) does.
pub proof fn lemma_find_from(s: Seq<char>, p: Seq<char>, k: int)
    requires
        0 <= k,
    ensures
        find_from(s, p, k) matches Some(i) ==> k <= i && i + p.len() <= s.len() && occurs_at(s, p, i)
            && forall|j: int| k <= j < i ==> !occurs_at(s, p, j),
        find_from(s, p, k) is None ==> forall|j: int| k <= j ==> !occurs_at(s, p, j),
    decreases s.len() + 1 - k,
{
    if k + p.len() <= s.len() && !occurs_at(s, p, k) {
        lemma_find_from(s, p, k + 1);
    }
}

/// Where `p` does not occur in `s` at positions `k..n`, a search from `k` gives what a
/// search from `n` gives.
pub proof fn lemma_find_skip(s: Seq<char>, p: Seq<char>, k: int, n: int)
    requires
        0 <= k <= n,
        n + p.len() <= s.len() + 1,
        forall|j: int| k <= j < n ==> !occurs_at(s, p, j),
    ensures
        find_from(s, p, k) == find_from(s, p, n),
    decreases n - k,
{
    if k < n {
        lemma_find_skip(s, p, k + 1, n);
    }
}

/// Appends one character to a `String` (std `String::push`).
#[verifier::external_body]
pub fn string_push(s: &mut String, c: char)
    ensures
        final(s)@ == old(s)@.push(c),
{
    s.push(c);
}

/// The characters of `s`, one per element.
pub fn to_chars(s: &str) -> (v: Vec<char>)
    ensures
        v@ == s@,
{
    let mut v: Vec<char> = Vec::new();
    for c in it: s.chars()
        invariant
            it.seq() == s@,
            v@ == it.seq().take(it.index() as int),
    {
        v.push(c);
    }
    v
}

/// The string made of the characters `v[from..to]`.
pub fn from_chars(v: &[char], from: usize, to: usize) -> (s: String)
    requires
        from <= to <= v@.len(),
    ensures
        s@ == v@.subrange(from as int, to as int),
{
    let mut s = String::new();
    let mut i = from;
    while i < to
        invariant
            from <= i <= to <= v@.len(),
            s@ == v@.subrange(from as int, i as int),
        decreases to - i,
    {
        string_push(&mut s, v[i]);
        i = i + 1;
    }
    s
}

/// A copy of `s` as an owned string.
pub fn owned(s: &str) -> (r: String)
    ensures
        r@ == s@,
{
    s.to_owned()
}

/// The concatenation of `a` and `b`.
pub fn concat(a: &str, b: &str) -> (r: String)
    ensures
        r@ == a@ + b@,
{
    let mut r = a.to_owned();
    r.append(b);
    r
}

/// Executable `is_ws`.
pub fn char_is_ws(c: char) -> (b: bool)
    ensures
        b == is_ws(c),
{
    let u = c as u32;
    (0x09 <= u && u <= 0x0d) || u == 0x20 || u == 0x85 || u == 0xa0 || u == 0x1680 || (0x2000
        <= u && u <= 0x200a) || u == 0x2028 || u == 0x2029 || u == 0x202f || u == 0x205f || u
        == 0x3000
}

proof fn lemma_trim_start_step(s: Seq<char>, i: int)
    requires
        0 <= i < s.len(),
        is_ws(s[i]),
    ensures
        trim_start(s.subrange(i, s.len() as int)) == trim_start(s.subrange(i + 1, s.len() as int)),
{
    assert(s.subrange(i, s.len() as int).drop_first() =~= s.subrange(i + 1, s.len() as int));
}

proof fn lemma_trim_end_step(s: Seq<char>, j: int)
    requires
        0 < j <= s.len(),
        is_ws(s[j - 1]),
    ensures
        trim_end(s.subrange(0, j)) == trim_end(s.subrange(0, j - 1)),
{
    assert(s.subrange(0, j).drop_last() =~= s.subrange(0, j - 1));
}

/// Positions `(i, j)` such that `v[i..j]` is `v` trimmed.
pub fn trim_bounds(v: &[char]) -> (r: (usize, usize))
    ensures
        r.0 <= r.1 <= v@.len(),
        v@.subrange(r.0 as int, r.1 as int) == trimmed(v@),
{
    let n = v.len();
    let mut i: usize = 0;
    assert(v@.subrange(0, n as int) =~= v@);
    while i < n && char_is_ws(v[i])
        invariant
            i <= n == v@.len(),
            trim_start(v@) == trim_start(v@.subrange(i as int, n as int)),
        decreases n - i,
    {
        proof {
            lemma_trim_start_step(v@, i as int);
        }
        i = i + 1;
    }
    let ghost rest = v@.subrange(i as int, n as int);
    assert(trim_start(rest) == rest);
    assert(trim_start(v@) == rest);
    let mut j: usize = n;
    assert(rest.subrange(0, (j - i) as int) =~= rest);
    while j > i && char_is_ws(v[j - 1])
        invariant
            i <= j <= n == v@.len(),
            rest == v@.subrange(i as int, n as int),
            trim_end(rest) == trim_end(rest.subrange(0, (j - i) as int)),
        decreases j,
    {
        proof {
            lemma_trim_end_step(rest, (j - i) as int);
        }
        j = j - 1;
    }
    assert(rest.subrange(0, (j - i) as int) =~= v@.subrange(i as int, j as int));
    (i, j)
}

/// `s` trimmed of leading and trailing white space.
pub fn trim(s: &str) -> (r: String)
    ensures
        r@ == trimmed(s@),
{
    let v = to_chars(s);
    let (i, j) = trim_bounds(v.as_slice());
    from_chars(v.as_slice(), i, j)
}

/// Whether `p` occurs in `s` at position `i`.
pub fn occurs_at_exec(s: &[char], p: &[char], i: usize) -> (b: bool)
    ensures
        b == occurs_at(s@, p@, i as int),
{
    if i > s.len() || p.len() > s.len() - i {
        return false;
    }
    let mut k: usize = 0;
    while k < p.len()
        invariant
            i + p@.len() <= s@.len(),
            s@.len() == s.len(),
            k <= p@.len(),
            forall|m: int| 0 <= m < k ==> s@[i + m] == p@[m],
        decreases p@.len() - k,
    {
        if s[i + k] != p[k] {
            assert(s@.subrange(i as int, i + p@.len())[k as int] != p@[k as int]);
            return false;
        }
        k = k + 1;
    }
    assert(s@.subrange(i as int, i + p@.len()) =~= p@);
    true
}

/// The first position at or after `from` where `p` occurs in `s`.
pub fn find_from_exec(s: &[char], p: &[char], from: usize) -> (r: Option<usize>)
    ensures
        r matches Some(i) ==> find_from(s@, p@, from as int) == Some(i as int),
        r is None ==> find_from(s@, p@, from as int) is None,
{
    let mut k = from;
    while k <= s.len() && p.len() <= s.len() - k
        invariant
            from <= k,
            s@.len() == s.len(),
            find_from(s@, p@, from as int) == find_from(s@, p@, k as int),
        decreases s@.len() + 1 - k,
    {
        if occurs_at_exec(s, p, k) {
            return Some(k);
        }
        assert(k < s@.len()) by {
            if k == s@.len() {
                assert(s@.subrange(k as int, k as int) =~= p@);
            }
        }
        k = k + 1;
    }
    None
}

/// Whether `s` begins with `p`.
pub fn starts_with_exec(s: &[char], p: &[char]) -> (b: bool)
    ensures
        b == starts_with(s@, p@),
{
    occurs_at_exec(s, p, 0)
}

/// Whether `s` ends with `p`.
pub fn ends_with_exec(s: &[char], p: &[char]) -> (b: bool)
    ensures
        b == ends_with(s@, p@),
{
    if p.len() > s.len() {
        return false;
    }
    occurs_at_exec(s, p, s.len() - p.len())
}

/// Whether `p` occurs in `s`.
pub fn contains_exec(s: &[char], p: &[char]) -> (b: bool)
    ensures
        b == contains(s@, p@),
{
    find_from_exec(s, p, 0).is_some()
}

/// Whether the string `s` begins with `p`.
pub fn str_starts_with(s: &str, p: &str) -> (b: bool)
    ensures
        b == starts_with(s@, p@),
{
    let sv = to_chars(s);
    let pv = to_chars(p);
    starts_with_exec(sv.as_slice(), pv.as_slice())
}

/// Whether the string `s` ends with `p`.
pub fn str_ends_with(s: &str, p: &str) -> (b: bool)
    ensures
        b == ends_with(s@, p@),
{
    let sv = to_chars(s);
    let pv = to_chars(p);
    ends_with_exec(sv.as_slice(), pv.as_slice())
}

/// Whether `p` occurs in the string `s`.
pub fn str_contains(s: &str, p: &str) -> (b: bool)
    ensures
        b == contains(s@, p@),
{
    let sv = to_chars(s);
    let pv = to_chars(p);
    contains_exec(sv.as_slice(), pv.as_slice())
}

/// Executable `ascii_lower`.
pub fn char_ascii_lower(c: char) -> (u: u32)
    ensures
        u == ascii_lower(c),
        'A' <= c <= 'Z' ==> u == (c as u32) + 32,
        !('A' <= c <= 'Z') ==> u == c as u32,
{
    let u = c as u32;
    if 65 <= u && u <= 90 {
        u + 32
    } else {
        u
    }
}

/// Whether `a` and `b` are equal ignoring the case of ASCII letters.
pub fn str_eq_ignore_ascii_case(a: &str, b: &str) -> (r: bool)
    ensures
        r == eq_ignore_ascii_case(a@, b@),
        r <==> (a@.len() == b@.len() && forall|i: int| 0 <= i < a@.len() ==> #[trigger] same_but_ascii_case(a@[i], b@[i])),
{
    proof {
        lemma_eq_ignore_ascii_case_letters(a@, b@);
    }
    let av = to_chars(a);
    let bv = to_chars(b);
    if av.len() != bv.len() {
        return false;
    }
    let mut i: usize = 0;
    while i < av.len()
        invariant
            av@ == a@,
            bv@ == b@,
            av@.len() == bv@.len(),
            i <= av@.len(),
            forall|k: int| 0 <= k < i ==> ascii_lower(#[trigger] av@[k]) == ascii_lower(bv@[k]),
        decreases av@.len() - i,
    {
        if char_ascii_lower(av[i]) != char_ascii_lower(bv[i]) {
            proof {
                lemma_eq_ignore_ascii_case_letters(a@, b@);
            }
            return false;
        }
        i = i + 1;
    }
    true
}

/// Whether two strings are equal.
pub fn str_eq(a: &str, b: &str) -> (r: bool)
    ensures
        r == (a@ == b@),
{
    let av = to_chars(a);
    let bv = to_chars(b);
    if av.len() != bv.len() {
        return false;
    }
    let mut i: usize = 0;
    while i < av.len()
        invariant
            av@ == a@,
            bv@ == b@,
            av@.len() == bv@.len(),
            i <= av@.len(),
            forall|k: int| 0 <= k < i ==> av@[k] == bv@[k],
        decreases av@.len() - i,
    {
        if av[i] != bv[i] {
            return false;
        }
        i = i + 1;
    }
    assert(av@ =~= bv@);
    true
}


/// The pieces of `s` between the occurrences of the non-empty pattern `p`.
pub fn split_str(s: &str, p: &str) -> (r: Vec<String>)
    requires
        p@.len() > 0,
    ensures
        string_values(r@) == split_all(s@, p@),
{
    let sv = to_chars(s);
    let pv = to_chars(p);
    let mut r: Vec<String> = Vec::new();
    let mut k: usize = 0;
    proof {
        assert(string_values(r@) + split_from(sv@, pv@, 0) =~= split_all(s@, p@));
    }
    loop
        invariant
            sv@ == s@,
            pv@ == p@,
            pv@.len() > 0,
            k <= sv@.len(),
            string_values(r@) + split_from(sv@, pv@, k as int) == split_all(s@, p@),
        decreases sv@.len() - k,
    {
        proof {
            lemma_find_from(sv@, pv@, k as int);
        }
        match find_from_exec(sv.as_slice(), pv.as_slice(), k) {
            Some(i) => {
                assert(k <= i && i + pv@.len() <= sv@.len());
                assert(sv@.len() == sv.len());
                let piece = from_chars(sv.as_slice(), k, i);
                let ghost before = string_values(r@);
                r.push(piece);
                proof {
                    assert(string_values(r@) =~= before.push(piece@));
                    assert(before + split_from(sv@, pv@, k as int) =~= before.push(piece@) + split_from(sv@, pv@, (i + pv@.len()) as int));
                }
                k = i + pv.len();
            },
            None => {
                let piece = from_chars(sv.as_slice(), k, sv.len());
                let ghost before = string_values(r@);
                r.push(piece);
                proof {
                    assert(string_values(r@) =~= before.push(piece@));
                    assert(before + split_from(sv@, pv@, k as int) =~= before.push(piece@));
                }
                return r;
            },
        }
    }
}

/// Whether `c` is an ASCII letter or digit.
pub fn char_is_ascii_alphanumeric(c: char) -> (b: bool)
    ensures
        b == is_ascii_alphanumeric(c),
{
    ('0' <= c && c <= '9') || ('a' <= c && c <= 'z') || ('A' <= c && c <= 'Z')
}

/// `c` is an ASCII letter or digit.
pub open spec fn is_ascii_alphanumeric(c: char) -> bool {
    ('0' <= c <= '9') || ('a' <= c <= 'z') || ('A' <= c <= 'Z')
}

/// `s[from..to]` as a new string.
pub fn substring(s: &str, from: usize, to: usize) -> (r: String)
    requires
        from <= to <= s@.len(),
    ensures
        r@ == s@.subrange(from as int, to as int),
{
    let v = to_chars(s);
    from_chars(v.as_slice(), from, to)
}

/// The first position of `p` in `s`.
pub fn str_find(s: &str, p: &str) -> (r: Option<usize>)
    ensures
        r matches Some(i) ==> find_first(s@, p@) == Some(i as int),
        r is None ==> find_first(s@, p@) is None,
{
    let sv = to_chars(s);
    let pv = to_chars(p);
    find_from_exec(sv.as_slice(), pv.as_slice(), 0)
}


/// `a` and `b` are the same character but for the case of an ASCII letter: equal, or one
/// an upper-case letter `A`..=`Z` and the other that letter in lower case.
pub open spec fn same_but_ascii_case(a: char, b: char) -> bool {
    ||| a == b
    ||| ('A' <= a <= 'Z' && (b as u32) == (a as u32) + 32)
    ||| ('A' <= b <= 'Z' && (a as u32) == (b as u32) + 32)
}

/// Folding ASCII case makes two characters equal exactly when they differ at most in the
/// case of an ASCII letter; every letter `A`..=`Z` folds to its lower-case letter and no
/// other character changes.
pub proof fn lemma_ascii_lower_folds_letters(a: char, b: char)
    ensures
        ascii_lower(a) == ascii_lower(b) <==> same_but_ascii_case(a, b),
        'A' <= a <= 'Z' ==> ascii_lower(a) == (a as u32) + 32 && 'a' as u32 <= ascii_lower(a) <= 'z' as u32,
        !('A' <= a <= 'Z') ==> ascii_lower(a) == a as u32,
{
}

/// Two strings are equal ignoring ASCII case exactly when they have the same length and
/// their characters, place by place, differ at most in the case of an ASCII letter.
pub proof fn lemma_eq_ignore_ascii_case_letters(a: Seq<char>, b: Seq<char>)
    ensures
        eq_ignore_ascii_case(a, b) <==> (a.len() == b.len() && forall|i: int| 0 <= i < a.len() ==> #[trigger] same_but_ascii_case(a[i], b[i])),
{
    if a.len() == b.len() {
        if eq_ignore_ascii_case(a, b) {
            assert forall|i: int| 0 <= i < a.len() implies #[trigger] same_but_ascii_case(a[i], b[i]) by {
                assert(ascii_lower(a[i]) == ascii_lower(b[i]));
                lemma_ascii_lower_folds_letters(a[i], b[i]);
            }
        }
        if forall|i: int| 0 <= i < a.len() ==> #[trigger] same_but_ascii_case(a[i], b[i]) {
            assert forall|i: int| 0 <= i < a.len() implies ascii_lower(#[trigger] a[i]) == ascii_lower(b[i]) by {
                assert(same_but_ascii_case(a[i], b[i]));
                lemma_ascii_lower_folds_letters(a[i], b[i]);
            }
        }
    }
}

/// `lex_le` is total.
pub proof fn lemma_lex_total(a: Seq<char>, b: Seq<char>)
    ensures
        lex_le(a, b) || lex_le(b, a),
    decreases a.len(),
{
    if a.len() > 0 && b.len() > 0 && (a[0] as u32) == (b[0] as u32) {
        lemma_lex_total(a.drop_first(), b.drop_first());
    }
}

/// `lex_le` is transitive.
pub proof fn lemma_lex_trans(a: Seq<char>, b: Seq<char>, c: Seq<char>)
    requires
        lex_le(a, b),
        lex_le(b, c),
    ensures
        lex_le(a, c),
    decreases a.len(),
{
    if a.len() > 0 && b.len() > 0 && c.len() > 0 && (a[0] as u32) == (b[0] as u32) && (b[0] as u32) == (c[0] as u32) {
        lemma_lex_trans(a.drop_first(), b.drop_first(), c.drop_first());
    }
}

/// Whether `a` comes before or equals `b` in lexicographic order.
pub fn str_lex_le(a: &str, b: &str) -> (r: bool)
    ensures
        r == lex_le(a@, b@),
{
    let av = to_chars(a);
    let bv = to_chars(b);
    let mut i: usize = 0;
    assert(a@.skip(0) =~= a@);
    assert(b@.skip(0) =~= b@);
    while i < av.len() && i < bv.len()
        invariant
            av@ == a@,
            bv@ == b@,
            i <= av@.len(),
            i <= bv@.len(),
            lex_le(a@, b@) == lex_le(a@.skip(i as int), b@.skip(i as int)),
        decreases av@.len() - i,
    {
        let x = av[i] as u32;
        let y = bv[i] as u32;
        assert(a@.skip(i as int)[0] == av@[i as int]);
        assert(b@.skip(i as int)[0] == bv@[i as int]);
        if x < y {
            return true;
        }
        if x > y {
            return false;
        }
        assert(a@.skip(i as int).drop_first() =~= a@.skip(i + 1));
        assert(b@.skip(i as int).drop_first() =~= b@.skip(i + 1));
        i = i + 1;
    }
    i == av.len()
}

/// `v` is in ascending lexicographic order.
pub open spec fn sorted_ascending(v: Seq<Seq<char>>) -> bool {
    forall|i: int, j: int| 0 <= i < j < v.len() ==> lex_le(#[trigger] v[i], #[trigger] v[j])
}

/// The strings of `v` in ascending lexicographic order.
pub fn sort_strings(v: Vec<String>) -> (r: Vec<String>)
    ensures
        sorted_ascending(string_values(r@)),
        string_values(r@).to_multiset() == string_values(v@).to_multiset(),
{
    broadcast use vstd::seq_lib::group_to_multiset_ensures;

    let mut r: Vec<String> = Vec::new();
    let mut i: usize = 0;
    while i < v.len()
        invariant
            i <= v@.len(),
            sorted_ascending(string_values(r@)),
            string_values(r@).to_multiset() == string_values(v@).take(i as int).to_multiset(),
        decreases v@.len() - i,
    {
        let x = v[i].clone();
        let mut k: usize = 0;
        while k < r.len() && str_lex_le(r[k].as_str(), x.as_str())
            invariant
                k <= r@.len(),
                forall|m: int| 0 <= m < k ==> lex_le(#[trigger] string_values(r@)[m], x@),
            decreases r@.len() - k,
        {
            k = k + 1;
        }
        let ghost before = string_values(r@);
        proof {
            if k < r.len() {
                lemma_lex_total(x@, before[k as int]);
            }
        }
        r.insert(k, x);
        proof {
            let after = string_values(r@);
            assert(after =~= before.insert(k as int, x@));
            assert forall|a: int, b: int| 0 <= a < b < after.len() implies lex_le(#[trigger] after[a], #[trigger] after[b]) by {
                if a < k && b == k {
                } else if a < k && b > k {
                    assert(after[b] == before[b - 1]);
                    lemma_lex_total(x@, before[k as int]);
                    if b - 1 > k {
                        lemma_lex_trans(x@, before[k as int], before[b - 1]);
                    }
                    lemma_lex_trans(before[a], x@, before[b - 1]);
                } else if a == k && b > k {
                    assert(after[b] == before[b - 1]);
                    if b - 1 > k {
                        lemma_lex_trans(x@, before[k as int], before[b - 1]);
                    }
                } else if a > k {
                    assert(after[a] == before[a - 1] && after[b] == before[b - 1]);
                } else {
                    assert(after[a] == before[a] && after[b] == before[b]);
                }
            }
            vstd::seq_lib::to_multiset_insert(before, k as int, x@);
            assert(string_values(v@).take(i + 1) =~= string_values(v@).take(i as int).push(x@));
            vstd::seq_lib::to_multiset_build(string_values(v@).take(i as int), x@);
        }
        i = i + 1;
    }
    assert(string_values(v@).take(i as int) =~= string_values(v@));
    r
}

/// The decimal digit `n` (0 to 9).
pub open spec fn digit_char(n: nat) -> char {
    ((48 + n) as u32) as char
}

/// The decimal digits of `n`, most significant first.
pub open spec fn nat_digits(n: nat) -> Seq<char>
    decreases n,
{
    if n < 10 {
        seq![digit_char(n)]
    } else {
        nat_digits(n / 10).push(digit_char(n % 10))
    }
}

/// `i` in decimal, with a `-` if negative.
pub open spec fn int_text(i: int) -> Seq<char> {
    if i < 0 {
        seq!['-'] + nat_digits((-i) as nat)
    } else {
        nat_digits(i as nat)
    }
}

/// `n` in decimal, as std's `Display` for `usize` prints it.
pub fn usize_text(n: usize) -> (s: String)
    ensures
        s@ == nat_digits(n as nat),
    decreases n,
{
    let d = (n % 10) as u8;
    let c = (48u8 + d) as char;
    assert(c == digit_char((n % 10) as nat));
    if n < 10 {
        let mut s = String::new();
        string_push(&mut s, c);
        assert(s@ =~= seq![digit_char(n as nat)]);
        s
    } else {
        let mut s = usize_text(n / 10);
        string_push(&mut s, c);
        s
    }
}

} // verus!
