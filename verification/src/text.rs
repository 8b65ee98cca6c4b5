//! Character-level string operations over the `Seq<char>` view of `str`:
//! searching, cutting, whitespace handling and decimal rendering.
use vstd::prelude::*;
use vstd::string::*;

verus! {

/// `pat` occurs in `s` starting at index `i`.
pub open spec fn occurs_at(s: Seq<char>, pat: Seq<char>, i: int) -> bool {
    &&& 0 <= i
    &&& i + pat.len() <= s.len()
    &&& s.subrange(i, i + pat.len()) == pat
}

/// The index of the first occurrence of `pat` in `s`, if any.
#[verifier::opaque]
pub open spec fn first_occurrence(s: Seq<char>, pat: Seq<char>) -> Option<int> {
    if exists|i: int| occurs_at(s, pat, i) {
        Some(
            choose|i: int|
                occurs_at(s, pat, i) && forall|j: int| 0 <= j < i ==> !occurs_at(s, pat, j),
        )
    } else {
        None
    }
}

/// The text of `s` before the first occurrence of `pat` (all of `s` when there is none):
/// the first piece that `str::split` yields.
pub open spec fn before_first(s: Seq<char>, pat: Seq<char>) -> Seq<char> {
    match first_occurrence(s, pat) {
        Some(i) => s.take(i),
        None => s,
    }
}

/// `s` contains `pat` as a contiguous piece.
pub open spec fn contains_piece(s: Seq<char>, pat: Seq<char>) -> bool {
    exists|i: int| occurs_at(s, pat, i)
}

/// `s` starts with `pat`.
pub open spec fn starts_with(s: Seq<char>, pat: Seq<char>) -> bool {
    occurs_at(s, pat, 0)
}

/// `s` ends with `pat`.
pub open spec fn ends_with(s: Seq<char>, pat: Seq<char>) -> bool {
    occurs_at(s, pat, s.len() - pat.len())
}

/// The first occurrence is the least index at which `pat` occurs.
pub proof fn lemma_first_occurrence_is_least(s: Seq<char>, pat: Seq<char>, i: int)
    requires
        occurs_at(s, pat, i),
        forall|j: int| 0 <= j < i ==> !occurs_at(s, pat, j),
    ensures
        first_occurrence(s, pat) == Some(i),
{
    reveal(first_occurrence);
    let k = choose|k: int|
        occurs_at(s, pat, k) && forall|j: int| 0 <= j < k ==> !occurs_at(s, pat, j);
    assert(occurs_at(s, pat, k) && forall|j: int| 0 <= j < k ==> !occurs_at(s, pat, j));
    if k < i {
        assert(!occurs_at(s, pat, k));
    } else if k > i {
        assert(!occurs_at(s, pat, i));
    }
}

/// There is a first occurrence exactly when `pat` occurs somewhere; it is an occurrence
/// and nothing occurs before it.
pub proof fn lemma_first_occurrence_props(s: Seq<char>, pat: Seq<char>)
    ensures
        contains_piece(s, pat) <==> first_occurrence(s, pat) is Some,
        first_occurrence(s, pat) is Some ==> occurs_at(s, pat, first_occurrence(s, pat)->0),
        first_occurrence(s, pat) is Some ==> forall|j: int|
            0 <= j < first_occurrence(s, pat)->0 ==> !occurs_at(s, pat, j),
{
    reveal(first_occurrence);
    if contains_piece(s, pat) {
        let i = choose|i: int| occurs_at(s, pat, i);
        lemma_least_occurrence_exists(s, pat, i);
    }
}

proof fn lemma_least_occurrence_exists(s: Seq<char>, pat: Seq<char>, i: int)
    requires
        occurs_at(s, pat, i),
    ensures
        exists|k: int| occurs_at(s, pat, k) && forall|j: int| 0 <= j < k ==> !occurs_at(s, pat, j),
    decreases i,
{
    if exists|j: int| 0 <= j < i && occurs_at(s, pat, j) {
        let j = choose|j: int| 0 <= j < i && occurs_at(s, pat, j);
        lemma_least_occurrence_exists(s, pat, j);
    } else {
        assert(occurs_at(s, pat, i) && forall|j: int| 0 <= j < i ==> !occurs_at(s, pat, j));
    }
}

/// The characters of `s`, in order.
pub fn chars_of(s: &str) -> (v: Vec<char>)
    ensures
        v@ == s@,
{
    let n = s.unicode_len();
    let mut v: Vec<char> = Vec::new();
    let mut i: usize = 0;
    while i < n
        invariant
            n == s@.len(),
            i <= n,
            v@ == s@.take(i as int),
        decreases n - i,
    {
        v.push(s.get_char(i));
        i = i + 1;
        assert(v@ =~= s@.take(i as int));
    }
    assert(v@ =~= s@);
    v
}

/// Whether `pat` occurs in `s` at index `i`.
fn matches_at(s: &Vec<char>, pat: &Vec<char>, i: usize) -> (b: bool)
    ensures
        b == occurs_at(s@, pat@, i as int),
{
    if i > s.len() || pat.len() > s.len() - i {
        return false;
    }
    let mut k: usize = 0;
    while k < pat.len()
        invariant
            i + pat@.len() <= s@.len(),
            i + pat.len() <= s.len(),
            k <= pat@.len(),
            forall|t: int| 0 <= t < k ==> s@[i + t] == pat@[t],
        decreases pat@.len() - k,
    {
        if s[i + k] != pat[k] {
            assert(s@.subrange(i as int, i + pat@.len())[k as int] != pat@[k as int]);
            return false;
        }
        k = k + 1;
    }
    assert(s@.subrange(i as int, i + pat@.len()) =~= pat@);
    true
}

/// The index of the first occurrence of `pat` in `s`, counted in characters.
pub fn find_piece(s: &str, pat: &str) -> (r: Option<usize>)
    ensures
        match r {
            Some(i) => first_occurrence(s@, pat@) == Some(i as int),
            None => first_occurrence(s@, pat@) is None,
        },
{
    let sv = chars_of(s);
    let pv = chars_of(pat);
    let n = sv.len();
    let mut i: usize = 0;
    while i < n
        invariant
            sv@ == s@,
            pv@ == pat@,
            n == s@.len(),
            i <= n,
            forall|j: int| 0 <= j < i ==> !occurs_at(s@, pat@, j),
        decreases n - i,
    {
        if matches_at(&sv, &pv, i) {
            proof {
                lemma_first_occurrence_is_least(s@, pat@, i as int);
            }
            return Some(i);
        }
        i = i + 1;
    }
    if matches_at(&sv, &pv, n) {
        proof {
            lemma_first_occurrence_is_least(s@, pat@, n as int);
        }
        return Some(n);
    }
    assert forall|j: int| !occurs_at(s@, pat@, j) by {
        if 0 <= j < n {
        }
    }
    proof {
        lemma_first_occurrence_props(s@, pat@);
    }
    None
}

/// The part of `s` before the first occurrence of `pat` (all of `s` when there is none).
pub fn cut_before<'a>(s: &'a str, pat: &str) -> (r: &'a str)
    ensures
        r@ == before_first(s@, pat@),
{
    match find_piece(s, pat) {
        Some(i) => {
            proof {
                lemma_first_occurrence_props(s@, pat@);
            }
            s.substring_char(0, i)
        },
        None => s,
    }
}

/// Whether `pat` occurs in `s` (`str::contains` with a string pattern).
pub fn contains(s: &str, pat: &str) -> (b: bool)
    ensures
        b == contains_piece(s@, pat@),
{
    match find_piece(s, pat) {
        Some(i) => {
            proof {
                lemma_first_occurrence_props(s@, pat@);
            }
            true
        },
        None => {
            proof {
                lemma_first_occurrence_props(s@, pat@);
            }
            false
        },
    }
}

/// Whether `s` starts with `pat`.
pub fn has_prefix(s: &str, pat: &str) -> (b: bool)
    ensures
        b == starts_with(s@, pat@),
{
    let sv = chars_of(s);
    let pv = chars_of(pat);
    matches_at(&sv, &pv, 0)
}

/// Whether `s` ends with `pat`.
pub fn has_suffix(s: &str, pat: &str) -> (b: bool)
    ensures
        b == ends_with(s@, pat@),
{
    let sv = chars_of(s);
    let pv = chars_of(pat);
    if pv.len() > sv.len() {
        return false;
    }
    matches_at(&sv, &pv, sv.len() - pv.len())
}

/// `a` followed by `b`, as a new string.
pub fn join_text(a: &str, b: &str) -> (r: String)
    ensures
        r@ == a@ + b@,
{
    let mut r = String::from_str(a);
    r.append(b);
    r
}

/// The Unicode `White_Space` property (PropList.txt), which `char::is_whitespace` tests.
pub open spec fn is_white_space(c: char) -> bool {
    ||| ('\u{9}' <= c && c <= '\u{d}')
    ||| c == ' '
    ||| c == '\u{85}'
    ||| c == '\u{a0}'
    ||| c == '\u{1680}'
    ||| ('\u{2000}' <= c && c <= '\u{200a}')
    ||| c == '\u{2028}'
    ||| c == '\u{2029}'
    ||| c == '\u{202f}'
    ||| c == '\u{205f}'
    ||| c == '\u{3000}'
}

/// Whether `c` is white space in the sense of `char::is_whitespace`.
pub fn is_white_space_char(c: char) -> (b: bool)
    ensures
        b == is_white_space(c),
{
    ('\u{9}' <= c && c <= '\u{d}') || c == ' ' || c == '\u{85}' || c == '\u{a0}' || c
        == '\u{1680}' || ('\u{2000}' <= c && c <= '\u{200a}') || c == '\u{2028}' || c
        == '\u{2029}' || c == '\u{202f}' || c == '\u{205f}' || c == '\u{3000}'
}

/// `s` with the white space at both ends removed (`str::trim`).
pub open spec fn trimmed(s: Seq<char>) -> Seq<char>
    decreases s.len(),
{
    if s.len() > 0 && is_white_space(s[0]) {
        trimmed(s.drop_first())
    } else if s.len() > 0 && is_white_space(s.last()) {
        trimmed(s.drop_last())
    } else {
        s
    }
}

proof fn lemma_trimmed_is_subrange(s: Seq<char>, a: int, b: int)
    requires
        0 <= a <= b <= s.len(),
        forall|i: int| 0 <= i < a ==> is_white_space(s[i]),
        forall|i: int| b <= i < s.len() ==> is_white_space(s[i]),
        a < b ==> !is_white_space(s[a]) && !is_white_space(s[b - 1]),
        a == b ==> forall|i: int| 0 <= i < s.len() ==> is_white_space(s[i]),
    ensures
        trimmed(s) == s.subrange(a, b),
    decreases s.len(),
{
    if s.len() > 0 && is_white_space(s[0]) {
        let t = s.drop_first();
        if a > 0 {
            lemma_trimmed_is_subrange(t, a - 1, b - 1);
            assert(t.subrange(a - 1, b - 1) =~= s.subrange(a, b));
        } else {
            lemma_trimmed_is_subrange(t, 0, 0);
            assert(t.subrange(0, 0) =~= s.subrange(a, b));
        }
    } else if s.len() > 0 && is_white_space(s.last()) {
        let t = s.drop_last();
        lemma_trimmed_is_subrange(t, a, b);
        assert(t.subrange(a, b) =~= s.subrange(a, b));
    } else {
        if s.len() > 0 {
            assert(a == 0);
            assert(b == s.len());
        }
        assert(s.subrange(a, b) =~= s);
    }
}

/// `s` with the white space at both ends removed (`str::trim`).
pub fn trim(s: &str) -> (r: &str)
    ensures
        r@ == trimmed(s@),
{
    let v = chars_of(s);
    let n = v.len();
    let mut a: usize = 0;
    while a < n && is_white_space_char(v[a])
        invariant
            v@ == s@,
            n == v@.len(),
            a <= n,
            forall|i: int| 0 <= i < a ==> is_white_space(v@[i]),
        decreases n - a,
    {
        a = a + 1;
    }
    let mut b: usize = n;
    while b > a && is_white_space_char(v[b - 1])
        invariant
            v@ == s@,
            n == v@.len(),
            a <= b <= n,
            forall|i: int| b <= i < n ==> is_white_space(v@[i]),
        decreases b,
    {
        b = b - 1;
    }
    proof {
        lemma_trimmed_is_subrange(s@, a as int, b as int);
    }
    s.substring_char(a, b)
}

/// The white-space separated words of `s`, in order (`str::split_whitespace`).
pub open spec fn words(s: Seq<char>) -> Seq<Seq<char>>
    decreases s.len(),
{
    if s.len() == 0 {
        seq![]
    } else {
        let w = words(s.drop_last());
        let c = s.last();
        if is_white_space(c) {
            w
        } else if s.len() >= 2 && !is_white_space(s[s.len() - 2]) {
            w.update(w.len() - 1, w.last().push(c))
        } else {
            w.push(seq![c])
        }
    }
}

/// The white-space separated words of `s`, in order (`str::split_whitespace`).
pub fn split_words<'a>(s: &'a str) -> (r: Vec<&'a str>)
    ensures
        r@.len() == words(s@).len(),
        forall|k: int| 0 <= k < r@.len() ==> #[trigger] r@[k]@ == words(s@)[k],
{
    let v = chars_of(s);
    let n = v.len();
    let mut done: Vec<&'a str> = Vec::new();
    let mut start: usize = 0;
    let mut in_word = false;
    let mut i: usize = 0;
    while i < n
        invariant
            v@ == s@,
            n == v@.len(),
            i <= n,
            start <= i,
            in_word ==> start < i && !is_white_space(v@[i - 1]),
            !in_word ==> (i == 0 || is_white_space(v@[i - 1])),
            in_word ==> forall|t: int| start <= t < i ==> !is_white_space(#[trigger] v@[t]),
            in_word ==> (start == 0 || is_white_space(v@[start - 1])),
            in_word ==> words(s@.take(i as int)).len() == done@.len() + 1 && words(
                s@.take(i as int),
            ).last() == s@.subrange(start as int, i as int),
            !in_word ==> words(s@.take(i as int)).len() == done@.len(),
            forall|k: int|
                0 <= k < done@.len() ==> #[trigger] done@[k]@ == words(s@.take(i as int))[k],
        decreases n - i,
    {
        let c = v[i];
        let ghost prev = s@.take(i as int);
        let ghost next = s@.take(i + 1);
        assert(next.drop_last() =~= prev);
        assert(next.last() == c);
        if is_white_space_char(c) {
            if in_word {
                let w = s.substring_char(start, i);
                done.push(w);
            }
            in_word = false;
        } else {
            if !in_word {
                start = i;
                in_word = true;
                assert(s@.subrange(start as int, i + 1) =~= seq![c]);
            } else {
                assert(s@.subrange(start as int, i + 1) =~= s@.subrange(
                    start as int,
                    i as int,
                ).push(c));
            }
        }
        i = i + 1;
    }
    if in_word {
        let w = s.substring_char(start, n);
        done.push(w);
    }
    assert(s@.take(n as int) =~= s@);
    done
}

/// `c` with ASCII upper-case letters mapped to lower case, as a code point.
pub open spec fn ascii_folded(c: char) -> u32 {
    if 'A' <= c && c <= 'Z' {
        (c as u32 + 32) as u32
    } else {
        c as u32
    }
}

/// `a` and `b` are equal up to ASCII case (`str::eq_ignore_ascii_case`).
pub open spec fn equal_ignoring_ascii_case(a: Seq<char>, b: Seq<char>) -> bool {
    &&& a.len() == b.len()
    &&& forall|i: int| 0 <= i < a.len() ==> ascii_folded(#[trigger] a[i]) == ascii_folded(b[i])
}

fn fold_ascii(c: char) -> (r: u32)
    ensures
        r == ascii_folded(c),
{
    if 'A' <= c && c <= 'Z' {
        c as u32 + 32
    } else {
        c as u32
    }
}

/// Whether `a` and `b` are equal up to ASCII case (`str::eq_ignore_ascii_case`).
pub fn eq_ignore_ascii_case(a: &str, b: &str) -> (r: bool)
    ensures
        r == equal_ignoring_ascii_case(a@, b@),
{
    let av = chars_of(a);
    let bv = chars_of(b);
    if av.len() != bv.len() {
        return false;
    }
    let mut i: usize = 0;
    while i < av.len()
        invariant
            av@ == a@,
            bv@ == b@,
            av@.len() == bv@.len(),
            i <= av@.len(),
            forall|j: int| 0 <= j < i ==> ascii_folded(#[trigger] av@[j]) == ascii_folded(bv@[j]),
        decreases av@.len() - i,
    {
        if fold_ascii(av[i]) != fold_ascii(bv[i]) {
            return false;
        }
        i = i + 1;
    }
    true
}

/// `c` with ASCII upper-case letters mapped to lower case.
pub open spec fn ascii_lower_char(c: char) -> char {
    if 'A' <= c && c <= 'Z' {
        ((c as int) + 32) as char
    } else {
        c
    }
}

/// Every character of `s` is ASCII.
pub open spec fn all_ascii(s: Seq<char>) -> bool {
    forall|i: int| 0 <= i < s.len() ==> (#[trigger] s[i]) <= '\u{7f}'
}

/// Names what `str::to_lowercase` returns for a string: its lower-case form by the
/// Unicode case mappings.
pub uninterp spec fn unicode_lowercase(s: Seq<char>) -> Seq<char>;

/// Calls `str::to_lowercase`. The result is named by `unicode_lowercase`; on ASCII text the
/// Unicode lower-case mapping is the ASCII one, which the second clause states.
#[verifier::external_body]
pub(crate) fn to_lowercase(s: &str) -> (r: String)
    ensures
        r@ == unicode_lowercase(s@),
        all_ascii(s@) ==> r@ == s@.map_values(|c: char| ascii_lower_char(c)),
{
    s.to_lowercase()
}

/// The character of a decimal digit `d < 10`.
pub open spec fn digit_char(d: nat) -> char {
    ('0' as int + d) as char
}

/// The decimal numeral of `n`, without leading zeros.
pub open spec fn decimal(n: nat) -> Seq<char>
    decreases n,
{
    if n < 10 {
        seq![digit_char(n)]
    } else {
        decimal(n / 10).push(digit_char(n % 10))
    }
}

fn digit_str(d: u64) -> (r: &'static str)
    requires
        d < 10,
    ensures
        r@ == seq![digit_char(d as nat)],
{
    proof {
        reveal_strlit("0");
        reveal_strlit("1");
        reveal_strlit("2");
        reveal_strlit("3");
        reveal_strlit("4");
        reveal_strlit("5");
        reveal_strlit("6");
        reveal_strlit("7");
        reveal_strlit("8");
        reveal_strlit("9");
    }
    let r = if d == 0 {
        "0"
    } else if d == 1 {
        "1"
    } else if d == 2 {
        "2"
    } else if d == 3 {
        "3"
    } else if d == 4 {
        "4"
    } else if d == 5 {
        "5"
    } else if d == 6 {
        "6"
    } else if d == 7 {
        "7"
    } else if d == 8 {
        "8"
    } else {
        "9"
    };
    assert(r@ =~= seq![digit_char(d as nat)]);
    r
}

/// The decimal numeral of `n` (what `{}` formatting writes for an unsigned integer).
pub fn decimal_string(n: u64) -> (r: String)
    ensures
        r@ == decimal(n as nat),
    decreases n,
{
    if n < 10 {
        String::from_str(digit_str(n))
    } else {
        let mut r = decimal_string(n / 10);
        r.append(digit_str(n % 10));
        r
    }
}

/// Whether `a` and `b` hold the same characters.
pub fn same_text(a: &str, b: &str) -> (r: bool)
    ensures
        r == (a@ == b@),
{
    let av = chars_of(a);
    let bv = chars_of(b);
    if av.len() != bv.len() {
        return false;
    }
    let r = matches_at(&av, &bv, 0);
    assert(av@.subrange(0, bv@.len() as int) =~= av@);
    r
}

/// `s` with its ASCII upper-case letters mapped to lower case.
pub open spec fn ascii_lowered(s: Seq<char>) -> Seq<char> {
    s.map_values(|c: char| ascii_lower_char(c))
}

/// `c` is an ASCII letter.
pub open spec fn is_ascii_letter(c: char) -> bool {
    ('A' <= c && c <= 'Z') || ('a' <= c && c <= 'z')
}

/// `s` holds no ASCII letter.
pub open spec fn no_ascii_letters(s: Seq<char>) -> bool {
    forall|i: int| 0 <= i < s.len() ==> !is_ascii_letter(#[trigger] s[i])
}

/// Lower-casing ASCII letters does not change where a pattern without letters occurs.
pub proof fn lemma_occurs_at_lowered(s: Seq<char>, pat: Seq<char>, i: int)
    requires
        no_ascii_letters(pat),
    ensures
        occurs_at(ascii_lowered(s), pat, i) == occurs_at(s, pat, i),
{
    let m = ascii_lowered(s);
    if 0 <= i && i + pat.len() <= s.len() {
        if occurs_at(s, pat, i) {
            assert forall|t: int| 0 <= t < pat.len() implies m.subrange(i, i + pat.len())[t]
                == pat[t] by {
                assert(s.subrange(i, i + pat.len())[t] == pat[t]);
                assert(!is_ascii_letter(pat[t]));
            }
            assert(m.subrange(i, i + pat.len()) =~= pat);
        }
        if occurs_at(m, pat, i) {
            assert forall|t: int| 0 <= t < pat.len() implies s.subrange(i, i + pat.len())[t]
                == pat[t] by {
                assert(m.subrange(i, i + pat.len())[t] == pat[t]);
                assert(m[i + t] == ascii_lower_char(s[i + t]));
                assert(!is_ascii_letter(pat[t]));
            }
            assert(s.subrange(i, i + pat.len()) =~= pat);
        }
    }
}

/// Lower-casing ASCII letters does not move the first occurrence of a pattern without
/// letters.
pub proof fn lemma_first_occurrence_lowered(s: Seq<char>, pat: Seq<char>)
    requires
        no_ascii_letters(pat),
    ensures
        first_occurrence(ascii_lowered(s), pat) == first_occurrence(s, pat),
{
    let m = ascii_lowered(s);
    if contains_piece(s, pat) {
        lemma_first_occurrence_props(s, pat);
        let i = first_occurrence(s, pat)->0;
        lemma_occurs_at_lowered(s, pat, i);
        assert forall|j: int| 0 <= j < i implies !occurs_at(m, pat, j) by {
            lemma_occurs_at_lowered(s, pat, j);
        }
        lemma_first_occurrence_is_least(m, pat, i);
    } else {
        assert forall|j: int| !occurs_at(m, pat, j) by {
            lemma_occurs_at_lowered(s, pat, j);
        }
        lemma_first_occurrence_props(s, pat);
        lemma_first_occurrence_props(m, pat);
    }
}

/// Cutting before a pattern without letters commutes with lower-casing ASCII letters.
pub proof fn lemma_before_first_lowered(s: Seq<char>, pat: Seq<char>)
    requires
        no_ascii_letters(pat),
    ensures
        before_first(ascii_lowered(s), pat) == ascii_lowered(before_first(s, pat)),
{
    lemma_first_occurrence_lowered(s, pat);
    match first_occurrence(s, pat) {
        Some(i) => {
            lemma_first_occurrence_props(s, pat);
            assert(ascii_lowered(s).take(i) =~= ascii_lowered(s.take(i)));
        },
        None => {},
    }
}

/// The text before a pattern is a prefix of `s`, so it is ASCII when `s` is.
pub proof fn lemma_before_first_ascii(s: Seq<char>, pat: Seq<char>)
    requires
        all_ascii(s),
    ensures
        all_ascii(before_first(s, pat)),
{
    match first_occurrence(s, pat) {
        Some(i) => {
            lemma_first_occurrence_props(s, pat);
            assert forall|t: int| 0 <= t < s.take(i).len() implies (#[trigger] s.take(i)[t])
                <= '\u{7f}' by {
                assert(s.take(i)[t] == s[t]);
            }
        },
        None => {},
    }
}

/// Lower-casing ASCII letters twice is lower-casing them once, and keeps text ASCII.
pub proof fn lemma_ascii_lowered_idempotent(s: Seq<char>)
    ensures
        ascii_lowered(ascii_lowered(s)) == ascii_lowered(s),
        all_ascii(s) ==> all_ascii(ascii_lowered(s)),
{
    assert(ascii_lowered(ascii_lowered(s)) =~= ascii_lowered(s));
}

/// A single character `c` occurs at `i` exactly when `s[i]` is `c`.
pub proof fn lemma_occurs_char(s: Seq<char>, c: char, i: int)
    ensures
        occurs_at(s, seq![c], i) == (0 <= i < s.len() && s[i] == c),
{
    if 0 <= i < s.len() {
        if s[i] == c {
            assert(s.subrange(i, i + 1) =~= seq![c]);
        } else {
            assert(s.subrange(i, i + 1)[0] == s[i]);
        }
    }
}

/// Cutting before a character that `s` does not hold leaves `s` whole.
pub proof fn lemma_cut_absent_char(s: Seq<char>, c: char)
    requires
        forall|i: int| 0 <= i < s.len() ==> s[i] != c,
    ensures
        before_first(s, seq![c]) == s,
{
    assert forall|j: int| !occurs_at(s, seq![c], j) by {
        lemma_occurs_char(s, c, j);
    }
    lemma_first_occurrence_props(s, seq![c]);
}

/// Cutting before a character whose first place in `s` is `k` leaves the first `k`
/// characters.
pub proof fn lemma_cut_at_char(s: Seq<char>, c: char, k: int)
    requires
        0 <= k < s.len(),
        s[k] == c,
        forall|i: int| 0 <= i < k ==> s[i] != c,
    ensures
        before_first(s, seq![c]) == s.take(k),
{
    lemma_occurs_char(s, c, k);
    assert forall|j: int| 0 <= j < k implies !occurs_at(s, seq![c], j) by {
        lemma_occurs_char(s, c, j);
    }
    lemma_first_occurrence_is_least(s, seq![c], k);
}

/// What is left before a character holds no such character.
pub proof fn lemma_cut_excludes_char(s: Seq<char>, c: char)
    ensures
        forall|i: int|
            0 <= i < before_first(s, seq![c]).len() ==> before_first(s, seq![c])[i] != c,
{
    lemma_first_occurrence_props(s, seq![c]);
    assert forall|i: int| 0 <= i < before_first(s, seq![c]).len() implies before_first(
        s,
        seq![c],
    )[i] != c by {
        lemma_occurs_char(s, c, i);
    }
}

/// What is left before a pattern is a prefix of `s`.
pub proof fn lemma_cut_is_prefix(s: Seq<char>, pat: Seq<char>)
    ensures
        before_first(s, pat).len() <= s.len(),
        forall|i: int| 0 <= i < before_first(s, pat).len() ==> before_first(s, pat)[i] == s[i],
{
    lemma_first_occurrence_props(s, pat);
}

} // verus!
