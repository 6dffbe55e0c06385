//! Character-level string helpers shared by the metadata policy and the
//! catalog: whitespace trimming, ASCII case folding, splitting, substring
//! replacement, substring search, and decimal formatting.

use vstd::prelude::*;

verus! {

/// `String::push` appends exactly one character at the end.
pub assume_specification[ String::push ](s: &mut String, c: char)
    ensures
        final(s)@ == old(s)@.push(c),
;

pub open spec fn is_space_char(c: char) -> bool {
    c == ' ' || c == '\t' || c == '\n' || c == '\r'
}

fn is_space(c: char) -> (r: bool)
    ensures
        r == is_space_char(c),
{
    c == ' ' || c == '\t' || c == '\n' || c == '\r'
}

/// The string with leading and trailing whitespace removed.
pub open spec fn spec_trim(s: Seq<char>) -> Seq<char>
    decreases s.len(),
{
    if s.len() == 0 {
        s
    } else if is_space_char(s.first()) {
        spec_trim(s.drop_first())
    } else if is_space_char(s.last()) {
        spec_trim(s.drop_last())
    } else {
        s
    }
}

pub fn trim(s: &str) -> (r: String)
    ensures
        r@ == spec_trim(s@),
    decreases s@.len(),
{
    let n = s.unicode_len();
    if n == 0 {
        String::new()
    } else if is_space(s.get_char(0)) {
        let rest = s.substring_char(1, n);
        assert(rest@ == s@.drop_first());
        trim(rest)
    } else if is_space(s.get_char(n - 1)) {
        let rest = s.substring_char(0, n - 1);
        assert(rest@ == s@.drop_last());
        trim(rest)
    } else {
        s.to_owned()
    }
}

/// ASCII-only lower-casing of one character, the same folding that the
/// catalog's case-insensitive name key uses.
pub open spec fn fold_char(c: char) -> char {
    if 'A' <= c && c <= 'Z' {
        (((c as u8) + 32) as char)
    } else {
        c
    }
}

/// ASCII-only lower-casing of a whole string.
pub open spec fn spec_fold(s: Seq<char>) -> Seq<char> {
    s.map_values(|c: char| fold_char(c))
}

fn fold_one(c: char) -> (r: char)
    ensures
        r == fold_char(c),
{
    if 'A' <= c && c <= 'Z' {
        ((c as u8) + 32) as char
    } else {
        c
    }
}

pub fn fold_case(s: &str) -> (r: String)
    ensures
        r@ == spec_fold(s@),
{
    let n = s.unicode_len();
    let mut r = String::new();
    let mut i: usize = 0;
    while i < n
        invariant
            i <= n,
            n == s@.len(),
            r@ == spec_fold(s@.take(i as int)),
        decreases n - i,
    {
        r.push(fold_one(s.get_char(i)));
        assert(spec_fold(s@.take(i + 1 as int)) == spec_fold(s@.take(i as int)).push(
            fold_char(s@[i as int]),
        )) by {
            assert(s@.take(i + 1 as int).map_values(|c: char| fold_char(c)) =~= s@.take(
                i as int,
            ).map_values(|c: char| fold_char(c)).push(fold_char(s@[i as int])));
        }
        i = i + 1;
    }
    assert(s@.take(n as int) == s@);
    r
}

/// Whether the characters of `s` starting at `at` spell out `pat`.
pub open spec fn matches_at(s: Seq<char>, at: int, pat: Seq<char>) -> bool {
    &&& 0 <= at
    &&& at + pat.len() <= s.len()
    &&& s.subrange(at, at + pat.len()) == pat
}

fn check_match_at(s: &str, at: usize, pat: &str) -> (r: bool)
    requires
        at <= s@.len(),
    ensures
        r == matches_at(s@, at as int, pat@),
{
    let m = pat.unicode_len();
    let n = s.unicode_len();
    if n - at < m {
        assert(!matches_at(s@, at as int, pat@));
        return false;
    }
    let mut j: usize = 0;
    while j < m
        invariant
            j <= m,
            m == pat@.len(),
            n == s@.len(),
            at + m <= n,
            forall|k: int| 0 <= k < j ==> s@[at + k] == pat@[k],
        decreases m - j,
    {
        if s.get_char(at + j) != pat.get_char(j) {
            assert(s@.subrange(at as int, at + m) != pat@) by {
                assert(s@.subrange(at as int, at + m)[j as int] != pat@[j as int]);
            }
            return false;
        }
        j = j + 1;
    }
    assert(s@.subrange(at as int, at + m) =~= pat@);
    true
}

/// The string with every non-overlapping occurrence of `pat` replaced by
/// `rep`, scanning left to right; an empty pattern replaces nothing.
pub open spec fn spec_replace(s: Seq<char>, pat: Seq<char>, rep: Seq<char>) -> Seq<char>
    decreases s.len(),
{
    if pat.len() == 0 || s.len() < pat.len() {
        s
    } else if s.subrange(0, pat.len() as int) == pat {
        rep + spec_replace(s.skip(pat.len() as int), pat, rep)
    } else {
        seq![s.first()] + spec_replace(s.drop_first(), pat, rep)
    }
}

pub fn replace(s: &str, pat: &str, rep: &str) -> (r: String)
    requires
        pat@.len() > 0,
    ensures
        r@ == spec_replace(s@, pat@, rep@),
{
    let n = s.unicode_len();
    let m = pat.unicode_len();
    let mut r = String::new();
    let mut i: usize = 0;
    assert(s@.skip(0) =~= s@);
    assert(r@ + spec_replace(s@, pat@, rep@) =~= spec_replace(s@, pat@, rep@));
    while i < n
        invariant
            i <= n,
            n == s@.len(),
            m == pat@.len(),
            m > 0,
            spec_replace(s@, pat@, rep@) == r@ + spec_replace(s@.skip(i as int), pat@, rep@),
        decreases n - i,
    {
        let ghost tail = s@.skip(i as int);
        if check_match_at(s, i, pat) {
            assert(tail.len() >= m && tail.subrange(0, m as int) == pat@) by {
                assert(tail.subrange(0, m as int) =~= s@.subrange(i as int, i + m));
            }
            assert(spec_replace(tail, pat@, rep@) == rep@ + spec_replace(
                tail.skip(m as int),
                pat@,
                rep@,
            ));
            r.append(rep);
            assert(tail.skip(m as int) =~= s@.skip(i + m));
            i = i + m;
        } else {
            proof {
                assert(tail.len() >= 1);
                if tail.len() >= m as nat {
                    assert(tail.subrange(0, m as int) != pat@) by {
                        assert(tail.subrange(0, m as int) =~= s@.subrange(i as int, i + m));
                    }
                }
                assert(spec_replace(tail, pat@, rep@) == seq![tail.first()] + spec_replace(
                    tail.drop_first(),
                    pat@,
                    rep@,
                ));
            }
            r.push(s.get_char(i));
            assert(tail.drop_first() =~= s@.skip(i + 1));
            assert(r@ + spec_replace(s@.skip(i + 1), pat@, rep@) == spec_replace(s@, pat@, rep@));
            i = i + 1;
        }
    }
    assert(s@.skip(n as int) =~= Seq::<char>::empty());
    assert(spec_replace(Seq::<char>::empty(), pat@, rep@) =~= Seq::<char>::empty());
    assert(r@ + Seq::<char>::empty() =~= r@);
    r
}

/// The fragments of `s` between occurrences of the separator, empty
/// fragments included; splitting the empty string yields one empty fragment.
pub open spec fn spec_split(s: Seq<char>, sep: char) -> Seq<Seq<char>>
    decreases s.len(),
{
    if s.len() == 0 {
        seq![Seq::<char>::empty()]
    } else if s.last() == sep {
        spec_split(s.drop_last(), sep).push(Seq::<char>::empty())
    } else {
        let rest = spec_split(s.drop_last(), sep);
        rest.update(rest.len() - 1, rest.last().push(s.last()))
    }
}

pub proof fn lemma_split_nonempty(s: Seq<char>, sep: char)
    ensures
        spec_split(s, sep).len() >= 1,
    decreases s.len(),
{
    if s.len() > 0 {
        lemma_split_nonempty(s.drop_last(), sep);
    }
}

pub fn split(s: &str, sep: char) -> (r: Vec<String>)
    ensures
        r@.map_values(|p: String| p@) == spec_split(s@, sep),
{
    let n = s.unicode_len();
    let mut parts: Vec<String> = Vec::new();
    let mut cur = String::new();
    let mut i: usize = 0;
    while i < n
        invariant
            i <= n,
            n == s@.len(),
            parts@.map_values(|p: String| p@).push(cur@) == spec_split(s@.take(i as int), sep),
        decreases n - i,
    {
        let c = s.get_char(i);
        assert(s@.take(i + 1).drop_last() =~= s@.take(i as int));
        assert(s@.take(i + 1).last() == s@[i as int]);
        if c == sep {
            parts.push(cur);
            cur = String::new();
            assert(parts@.map_values(|p: String| p@).push(cur@) =~= spec_split(
                s@.take(i + 1),
                sep,
            ));
        } else {
            cur.push(c);
            proof {
                let prev = spec_split(s@.take(i as int), sep);
                lemma_split_nonempty(s@.take(i as int), sep);
                assert(spec_split(s@.take(i + 1), sep) == prev.update(
                    prev.len() - 1,
                    prev.last().push(c),
                ));
                assert(parts@.map_values(|p: String| p@).push(cur@) =~= spec_split(
                    s@.take(i + 1),
                    sep,
                ));
            }
        }
        i = i + 1;
    }
    assert(s@.take(n as int) == s@);
    parts.push(cur);
    assert(parts@.map_values(|p: String| p@) =~= spec_split(s@, sep));
    parts
}

/// `c` glued onto the front of the first fragment of `fs`.
pub open spec fn prepend_first(c: Seq<char>, fs: Seq<Seq<char>>) -> Seq<Seq<char>> {
    if fs.len() == 0 {
        seq![c]
    } else {
        seq![c + fs.first()] + fs.drop_first()
    }
}

/// The fragments of `s` between non-overlapping occurrences of the string
/// `pat`, scanning left to right, empty fragments included.
pub open spec fn spec_split_str(s: Seq<char>, pat: Seq<char>) -> Seq<Seq<char>>
    decreases s.len(),
{
    if pat.len() == 0 || s.len() < pat.len() {
        seq![s]
    } else if s.subrange(0, pat.len() as int) == pat {
        seq![Seq::<char>::empty()] + spec_split_str(s.skip(pat.len() as int), pat)
    } else {
        prepend_first(seq![s.first()], spec_split_str(s.drop_first(), pat))
    }
}

pub proof fn lemma_split_str_nonempty(s: Seq<char>, pat: Seq<char>)
    ensures
        spec_split_str(s, pat).len() >= 1,
    decreases s.len(),
{
    if !(pat.len() == 0 || s.len() < pat.len()) {
        if s.subrange(0, pat.len() as int) == pat {
            lemma_split_str_nonempty(s.skip(pat.len() as int), pat);
        } else {
            lemma_split_str_nonempty(s.drop_first(), pat);
        }
    }
}

pub fn split_str(s: &str, pat: &str) -> (r: Vec<String>)
    requires
        pat@.len() > 0,
    ensures
        r@.map_values(|p: String| p@) == spec_split_str(s@, pat@),
{
    let n = s.unicode_len();
    let m = pat.unicode_len();
    let mut parts: Vec<String> = Vec::new();
    let mut cur = String::new();
    let mut i: usize = 0;
    proof {
        assert(s@.skip(0) =~= s@);
    }
    while i < n
        invariant
            i <= n,
            n == s@.len(),
            m == pat@.len(),
            m > 0,
            spec_split_str(s@, pat@) == parts@.map_values(|p: String| p@) + prepend_first(
                cur@,
                spec_split_str(s@.skip(i as int), pat@),
            ),
        decreases n - i,
    {
        let ghost tail = s@.skip(i as int);
        proof {
            lemma_split_str_nonempty(tail, pat@);
        }
        if check_match_at(s, i, pat) {
            proof {
                assert(tail.len() >= m && tail.subrange(0, m as int) == pat@) by {
                    assert(tail.subrange(0, m as int) =~= s@.subrange(i as int, i + m));
                }
                assert(spec_split_str(tail, pat@) == seq![Seq::<char>::empty()] + spec_split_str(
                    tail.skip(m as int),
                    pat@,
                ));
                assert(tail.skip(m as int) =~= s@.skip(i + m));
                lemma_split_str_nonempty(s@.skip(i + m), pat@);
            }
            parts.push(cur);
            cur = String::new();
            proof {
                let rest = spec_split_str(s@.skip(i + m), pat@);
                assert(prepend_first(cur@, rest) =~= rest);
                assert(parts@.map_values(|p: String| p@) + rest =~= spec_split_str(s@, pat@));
            }
            i = i + m;
        } else {
            proof {
                assert(tail.len() >= 1);
                if tail.len() >= m as nat {
                    assert(tail.subrange(0, m as int) != pat@) by {
                        assert(tail.subrange(0, m as int) =~= s@.subrange(i as int, i + m));
                    }
                    assert(spec_split_str(tail, pat@) == prepend_first(
                        seq![tail.first()],
                        spec_split_str(tail.drop_first(), pat@),
                    ));
                } else {
                    assert(spec_split_str(tail, pat@) =~= seq![tail]);
                }
                assert(tail.drop_first() =~= s@.skip(i + 1));
            }
            cur.push(s.get_char(i));
            proof {
                let rest = spec_split_str(s@.skip(i + 1), pat@);
                lemma_split_str_nonempty(s@.skip(i + 1), pat@);
                if tail.len() >= m as nat {
                    assert(prepend_first(cur@, rest) =~~= prepend_first(
                        cur@.drop_last(),
                        prepend_first(seq![tail.first()], rest),
                    ));
                } else {
                    assert(s@.skip(i + 1) =~= tail.drop_first());
                    assert(prepend_first(cur@, rest) =~~= prepend_first(cur@.drop_last(), seq![tail]));
                }
                assert(parts@.map_values(|p: String| p@) + prepend_first(cur@, rest)
                    =~~= spec_split_str(s@, pat@));
            }
            i = i + 1;
        }
    }
    proof {
        assert(s@.skip(n as int) =~= Seq::<char>::empty());
        assert(spec_split_str(Seq::<char>::empty(), pat@) =~= seq![Seq::<char>::empty()]);
        assert(prepend_first(cur@, seq![Seq::<char>::empty()]) =~= seq![cur@]);
    }
    parts.push(cur);
    assert(parts@.map_values(|p: String| p@) =~= spec_split_str(s@, pat@));
    parts
}

/// Whether `needle` occurs as a contiguous substring of `hay`.
pub open spec fn spec_contains(hay: Seq<char>, needle: Seq<char>) -> bool {
    exists|at: int| matches_at(hay, at, needle)
}

pub fn contains_sub(hay: &str, needle: &str) -> (r: bool)
    ensures
        r == spec_contains(hay@, needle@),
{
    let n = hay.unicode_len();
    let m = needle.unicode_len();
    if m > n {
        assert(!spec_contains(hay@, needle@));
        return false;
    }
    if m == 0 {
        assert(matches_at(hay@, 0, needle@)) by {
            assert(hay@.subrange(0, 0) =~= needle@);
        }
        return true;
    }
    let mut i: usize = 0;
    while i <= n - m
        invariant
            n == hay@.len(),
            m == needle@.len(),
            0 < m <= n,
            i <= n - m + 1,
            forall|at: int| 0 <= at < i ==> !matches_at(hay@, at, needle@),
        decreases n + 1 - i,
    {
        if check_match_at(hay, i, needle) {
            assert(spec_contains(hay@, needle@));
            return true;
        }
        i = i + 1;
    }
    assert(forall|at: int| matches_at(hay@, at, needle@) ==> 0 <= at && at + m <= n);
    false
}

/// Case-insensitive substring match, the shape of a `LIKE '%q%'` filter.
pub open spec fn spec_contains_ci(hay: Seq<char>, needle: Seq<char>) -> bool {
    spec_contains(spec_fold(hay), spec_fold(needle))
}

pub fn contains_ci(hay: &str, needle: &str) -> (r: bool)
    ensures
        r == spec_contains_ci(hay@, needle@),
{
    let h = fold_case(hay);
    let n = fold_case(needle);
    contains_sub(h.as_str(), n.as_str())
}

/// Character-wise equality of two string slices.
pub fn eq_str(a: &str, b: &str) -> (r: bool)
    ensures
        r == (a@ == b@),
{
    let n = a.unicode_len();
    if n != b.unicode_len() {
        assert(a@ != b@);
        return false;
    }
    let mut i: usize = 0;
    while i < n
        invariant
            i <= n,
            n == a@.len() && n == b@.len(),
            forall|k: int| 0 <= k < i ==> a@[k] == b@[k],
        decreases n - i,
    {
        if a.get_char(i) != b.get_char(i) {
            return false;
        }
        i = i + 1;
    }
    assert(a@ =~= b@);
    true
}

pub open spec fn digit_char(d: nat) -> char {
    if d == 0 {
        '0'
    } else if d == 1 {
        '1'
    } else if d == 2 {
        '2'
    } else if d == 3 {
        '3'
    } else if d == 4 {
        '4'
    } else if d == 5 {
        '5'
    } else if d == 6 {
        '6'
    } else if d == 7 {
        '7'
    } else if d == 8 {
        '8'
    } else {
        '9'
    }
}

/// The decimal rendering of a number, most significant digit first.
pub open spec fn spec_digits(n: nat) -> Seq<char>
    decreases n,
{
    if n < 10 {
        seq![digit_char(n)]
    } else {
        spec_digits(n / 10).push(digit_char(n % 10))
    }
}

fn digit_exec(d: u64) -> (r: char)
    requires
        d < 10,
    ensures
        r == digit_char(d as nat),
{
    if d == 0 {
        '0'
    } else if d == 1 {
        '1'
    } else if d == 2 {
        '2'
    } else if d == 3 {
        '3'
    } else if d == 4 {
        '4'
    } else if d == 5 {
        '5'
    } else if d == 6 {
        '6'
    } else if d == 7 {
        '7'
    } else if d == 8 {
        '8'
    } else {
        '9'
    }
}

pub fn u64_to_string(n: u64) -> (r: String)
    ensures
        r@ == spec_digits(n as nat),
    decreases n,
{
    if n < 10 {
        let mut r = String::new();
        r.push(digit_exec(n));
        assert(r@ =~= seq![digit_char(n as nat)]);
        r
    } else {
        let mut r = u64_to_string(n / 10);
        r.push(digit_exec(n % 10));
        r
    }
}


pub proof fn lemma_digits_len(n: nat)
    ensures
        spec_digits(n).len() >= 1,
    decreases n,
{
    if n >= 10 {
        lemma_digits_len(n / 10);
    }
}

/// Distinct numbers render to distinct decimal strings.
pub proof fn lemma_digits_injective(a: nat, b: nat)
    requires
        spec_digits(a) == spec_digits(b),
    ensures
        a == b,
    decreases a,
{
    if a < 10 && b < 10 {
        assert(digit_char(a) == digit_char(b)) by {
            assert(spec_digits(a)[0] == digit_char(a));
            assert(spec_digits(b)[0] == digit_char(b));
        }
        if a != b {
            assert(false);
        }
    } else if a < 10 {
        lemma_digits_len(b / 10);
        assert(spec_digits(b).len() >= 2);
        assert(spec_digits(a).len() == 1);
        assert(false);
    } else if b < 10 {
        lemma_digits_len(a / 10);
        assert(spec_digits(a).len() >= 2);
        assert(spec_digits(b).len() == 1);
        assert(false);
    } else {
        assert(spec_digits(a).last() == digit_char(a % 10));
        assert(spec_digits(b).last() == digit_char(b % 10));
        assert(digit_char(a % 10) == digit_char(b % 10)) by {
            assert(spec_digits(a).last() == spec_digits(b).last());
        }
        if a % 10 != b % 10 {
            assert(false);
        }
        assert(spec_digits(a).drop_last() =~= spec_digits(a / 10));
        assert(spec_digits(b).drop_last() =~= spec_digits(b / 10));
        lemma_digits_injective(a / 10, b / 10);
    }
}

} // verus!
