//! Character-level utilities shared by the token, header and message
//! parsers: ASCII case folding, whitespace trimming, and conversions
//! between `String`/`&str` and `Vec<char>`.

use vstd::prelude::*;
use vstd::string::*;

verus! {

/// Linear whitespace inside a start line or a header line: a space or a
/// horizontal tab.
pub open spec fn is_space(c: char) -> bool {
    c == ' ' || c == '\t'
}

/// ASCII case folding of one character: a lowercase ASCII letter becomes
/// the corresponding uppercase letter, every other character is unchanged.
pub open spec fn to_upper(c: char) -> char {
    if 97 <= c as u32 && c as u32 <= 122 {
        ((c as u32 - 32) as char)
    } else {
        c
    }
}

/// ASCII case folding of a whole character sequence.
pub open spec fn upper(s: Seq<char>) -> Seq<char> {
    s.map_values(|c: char| to_upper(c))
}

/// Two character sequences are the same token up to ASCII case.
pub open spec fn token_eq_ci(s: Seq<char>, t: Seq<char>) -> bool {
    upper(s) == upper(t)
}

/// The sequence without its leading spaces and tabs.
pub open spec fn trim_front(s: Seq<char>) -> Seq<char>
    decreases s.len(),
{
    if s.len() > 0 && is_space(s[0]) {
        trim_front(s.drop_first())
    } else {
        s
    }
}

/// The sequence without its trailing spaces and tabs.
pub open spec fn trim_back(s: Seq<char>) -> Seq<char>
    decreases s.len(),
{
    if s.len() > 0 && is_space(s[s.len() - 1]) {
        trim_back(s.drop_last())
    } else {
        s
    }
}

/// The sequence without leading or trailing spaces and tabs.
pub open spec fn trim(s: Seq<char>) -> Seq<char> {
    trim_back(trim_front(s))
}

/// Case folding keeps spaces spaces and non-spaces non-spaces.
pub proof fn lemma_to_upper_space(c: char)
    ensures
        is_space(to_upper(c)) == is_space(c),
{
}

/// Case folding commutes with dropping leading spaces.
pub proof fn lemma_upper_trim_front(s: Seq<char>)
    ensures
        upper(trim_front(s)) == trim_front(upper(s)),
    decreases s.len(),
{
    if s.len() > 0 {
        assert(upper(s)[0] == to_upper(s[0]));
        lemma_to_upper_space(s[0]);
        if is_space(s[0]) {
            lemma_upper_trim_front(s.drop_first());
            assert(upper(s).drop_first() =~= upper(s.drop_first()));
        } else {
            assert(trim_front(upper(s)) == upper(s));
        }
    } else {
        assert(upper(s).len() == 0);
    }
}

/// Case folding commutes with dropping trailing spaces.
pub proof fn lemma_upper_trim_back(s: Seq<char>)
    ensures
        upper(trim_back(s)) == trim_back(upper(s)),
    decreases s.len(),
{
    if s.len() > 0 {
        assert(upper(s)[s.len() - 1] == to_upper(s[s.len() - 1]));
        lemma_to_upper_space(s[s.len() - 1]);
        if is_space(s[s.len() - 1]) {
            lemma_upper_trim_back(s.drop_last());
            assert(upper(s).drop_last() =~= upper(s.drop_last()));
        } else {
            assert(trim_back(upper(s)) == upper(s));
        }
    } else {
        assert(upper(s).len() == 0);
    }
}

/// Case folding commutes with trimming: what a token folds to does not
/// depend on whether it was trimmed before or after folding.
pub proof fn lemma_upper_trim(s: Seq<char>)
    ensures
        upper(trim(s)) == trim(upper(s)),
{
    lemma_upper_trim_front(s);
    lemma_upper_trim_back(trim_front(s));
}

/// A sequence without lowercase ASCII letters folds to itself.
pub proof fn lemma_upper_id(s: Seq<char>)
    requires
        forall|j: int| 0 <= j < s.len() ==> !(97 <= s[j] as u32 && s[j] as u32 <= 122),
    ensures
        upper(s) == s,
{
    assert(upper(s) =~= s);
}

/// The first index at or after `i` where `c` occurs in `s`, if any.
pub open spec fn find_char_from(s: Seq<char>, c: char, i: nat) -> Option<nat>
    decreases s.len() - i,
{
    if i >= s.len() {
        None
    } else if s[i as int] == c {
        Some(i)
    } else {
        find_char_from(s, c, (i + 1) as nat)
    }
}

/// Searching a concatenation beyond the prefix is searching the suffix.
pub proof fn lemma_find_char_shift(pre: Seq<char>, s: Seq<char>, c: char, i: nat)
    ensures
        find_char_from(pre + s, c, pre.len() + i) == match find_char_from(s, c, i) {
            Some(j) => Some((pre.len() + j) as nat),
            None => None,
        },
    decreases s.len() - i,
{
    if i >= s.len() {
    } else {
        assert((pre + s)[pre.len() + i as int] == s[i as int]);
        if s[i as int] == c {
        } else {
            lemma_find_char_shift(pre, s, c, i + 1);
        }
    }
}

/// The search finds `k` when `c` first occurs there.
pub proof fn lemma_find_char_at(s: Seq<char>, c: char, i: nat, k: nat)
    requires
        i <= k < s.len(),
        s[k as int] == c,
        forall|j: int| i <= j < k ==> s[j] != c,
    ensures
        find_char_from(s, c, i) == Some(k),
    decreases k - i,
{
    if i < k {
        lemma_find_char_at(s, c, i + 1, k);
    }
}

/// The search fails when `c` occurs nowhere at or after `i`.
pub proof fn lemma_find_char_none(s: Seq<char>, c: char, i: nat)
    requires
        forall|j: int| i <= j < s.len() ==> s[j] != c,
    ensures
        find_char_from(s, c, i) == None::<nat>,
    decreases s.len() - i,
{
    if i < s.len() {
        lemma_find_char_none(s, c, i + 1);
    }
}

/// The first index at or after `from` where `c` occurs in `v`, if any.
pub fn find_char(v: &Vec<char>, from: usize, c: char) -> (r: Option<usize>)
    requires
        from <= v@.len(),
    ensures
        match r {
            Some(j) => from <= j < v@.len() && find_char_from(v@, c, from as nat) == Some(
                j as nat,
            ),
            None => find_char_from(v@, c, from as nat) == None::<nat>,
        },
{
    let n = v.len();
    let mut i: usize = from;
    while i < n
        invariant
            from <= i <= n == v@.len(),
            find_char_from(v@, c, from as nat) == find_char_from(v@, c, i as nat),
        decreases n - i,
    {
        if v[i] == c {
            return Some(i);
        }
        i = i + 1;
    }
    None
}

/// Whether one character equals another up to ASCII case.
pub fn char_eq_ci(a: char, b: char) -> (r: bool)
    ensures
        r == (to_upper(a) == to_upper(b)),
{
    let ua = a as u32;
    let ub = b as u32;
    let fa: u32 = if 97 <= ua && ua <= 122 {
        ua - 32
    } else {
        ua
    };
    let fb: u32 = if 97 <= ub && ub <= 122 {
        ub - 32
    } else {
        ub
    };
    proof {
        assert(to_upper(a) as u32 == fa);
        assert(to_upper(b) as u32 == fb);
    }
    fa == fb
}

/// The characters of a string slice, in order.
pub fn str_to_chars(s: &str) -> (v: Vec<char>)
    ensures
        v@ == s@,
{
    let n = s.unicode_len();
    let mut v: Vec<char> = Vec::new();
    let mut i: usize = 0;
    while i < n
        invariant
            n == s@.len(),
            i <= n,
            v@ == s@.subrange(0, i as int),
        decreases n - i,
    {
        let c = s.get_char(i);
        proof {
            assert(s@.subrange(0, i as int + 1) =~= s@.subrange(0, i as int).push(s@[i as int]));
        }
        v.push(c);
        i = i + 1;
    }
    proof {
        assert(v@ =~= s@);
    }
    v
}

/// Dropping leading spaces one by one does not change the trimmed front.
pub proof fn lemma_trim_front_skip(s: Seq<char>, k: nat)
    requires
        k <= s.len(),
        forall|j: int| 0 <= j < k ==> is_space(s[j]),
    ensures
        trim_front(s) == trim_front(s.subrange(k as int, s.len() as int)),
    decreases k,
{
    if k > 0 {
        assert(s.drop_first() =~= s.subrange(1, s.len() as int));
        lemma_trim_front_skip(s.drop_first(), (k - 1) as nat);
        assert(s.drop_first().subrange(k - 1, s.drop_first().len() as int) =~= s.subrange(
            k as int,
            s.len() as int,
        ));
    } else {
        assert(s.subrange(0, s.len() as int) =~= s);
    }
}

/// A sequence with no leading space is already front-trimmed.
pub proof fn lemma_trim_front_id(s: Seq<char>)
    requires
        s.len() == 0 || !is_space(s[0]),
    ensures
        trim_front(s) == s,
{
}

/// Dropping trailing spaces one by one does not change the trimmed back.
pub proof fn lemma_trim_back_skip(s: Seq<char>, k: nat)
    requires
        k <= s.len(),
        forall|j: int| k <= j < s.len() ==> is_space(s[j]),
    ensures
        trim_back(s) == trim_back(s.subrange(0, k as int)),
    decreases s.len() - k,
{
    if k < s.len() {
        assert(s.drop_last() =~= s.subrange(0, s.len() - 1));
        lemma_trim_back_skip(s.drop_last(), k);
        assert(s.drop_last().subrange(0, k as int) =~= s.subrange(0, k as int));
    } else {
        assert(s.subrange(0, k as int) =~= s);
    }
}

/// A sequence with no trailing space is already back-trimmed.
pub proof fn lemma_trim_back_id(s: Seq<char>)
    requires
        s.len() == 0 || !is_space(s[s.len() - 1]),
    ensures
        trim_back(s) == s,
{
}

/// A sequence with no space at either end is its own trimming.
pub proof fn lemma_trim_id(s: Seq<char>)
    requires
        s.len() == 0 || (!is_space(s[0]) && !is_space(s[s.len() - 1])),
    ensures
        trim(s) == s,
{
    lemma_trim_front_id(s);
    lemma_trim_back_id(s);
}

/// One leading space is discarded by trimming.
pub proof fn lemma_trim_space_prefix(s: Seq<char>)
    ensures
        trim(seq![' '] + s) == trim(s),
{
    assert(is_space((seq![' '] + s)[0]));
    assert((seq![' '] + s).drop_first() =~= s);
}

/// The bounds of `v[lo..hi]` without its leading and trailing spaces.
pub fn trim_range(v: &Vec<char>, lo: usize, hi: usize) -> (r: (usize, usize))
    requires
        lo <= hi <= v@.len(),
    ensures
        lo <= r.0 <= r.1 <= hi,
        v@.subrange(r.0 as int, r.1 as int) == trim(v@.subrange(lo as int, hi as int)),
{
    let ghost s = v@.subrange(lo as int, hi as int);
    let mut a: usize = lo;
    while a < hi && (v[a] == ' ' || v[a] == '\t')
        invariant
            lo <= a <= hi <= v@.len(),
            forall|j: int| lo <= j < a ==> is_space(v@[j]),
        decreases hi - a,
    {
        a = a + 1;
    }
    let mut b: usize = hi;
    while b > a && (v[b - 1] == ' ' || v[b - 1] == '\t')
        invariant
            lo <= a <= b <= hi <= v@.len(),
            forall|j: int| b <= j < hi ==> is_space(v@[j]),
        decreases b,
    {
        b = b - 1;
    }
    proof {
        lemma_trim_front_skip(s, (a - lo) as nat);
        assert(s.subrange(a - lo, s.len() as int) =~= v@.subrange(a as int, hi as int));
        let t = v@.subrange(a as int, hi as int);
        lemma_trim_front_id(t);
        lemma_trim_back_skip(t, (b - a) as nat);
        assert(t.subrange(0, b - a) =~= v@.subrange(a as int, b as int));
        let u = v@.subrange(a as int, b as int);
        lemma_trim_back_id(u);
    }
    (a, b)
}

/// Whether `v[lo..hi]` equals the token `tok` up to ASCII case.
pub fn match_token_ci(v: &Vec<char>, lo: usize, hi: usize, tok: &str) -> (r: bool)
    requires
        lo <= hi <= v@.len(),
    ensures
        r == token_eq_ci(v@.subrange(lo as int, hi as int), tok@),
{
    let ghost s = v@.subrange(lo as int, hi as int);
    let n = tok.unicode_len();
    if hi - lo != n {
        proof {
            assert(upper(s).len() != upper(tok@).len());
        }
        return false;
    }
    let mut i: usize = 0;
    while i < n
        invariant
            n == tok@.len() == s.len() == hi - lo,
            lo <= hi <= v@.len(),
            s == v@.subrange(lo as int, hi as int),
            i <= n,
            forall|j: int| 0 <= j < i ==> to_upper(s[j]) == to_upper(tok@[j]),
        decreases n - i,
    {
        if !char_eq_ci(v[lo + i], tok.get_char(i)) {
            proof {
                assert(upper(s)[i as int] != upper(tok@)[i as int]);
            }
            return false;
        }
        i = i + 1;
    }
    proof {
        assert(upper(s) =~= upper(tok@));
    }
    true
}

/// A fresh vector holding the characters `v[lo..hi]`.
pub fn subvec(v: &Vec<char>, lo: usize, hi: usize) -> (r: Vec<char>)
    requires
        lo <= hi <= v@.len(),
    ensures
        r@ == v@.subrange(lo as int, hi as int),
{
    let mut r: Vec<char> = Vec::new();
    let mut i: usize = lo;
    while i < hi
        invariant
            lo <= i <= hi <= v@.len(),
            r@ == v@.subrange(lo as int, i as int),
        decreases hi - i,
    {
        proof {
            assert(v@.subrange(lo as int, i as int + 1) =~= v@.subrange(
                lo as int,
                i as int,
            ).push(v@[i as int]));
        }
        r.push(v[i]);
        i = i + 1;
    }
    r
}

/// Whether two string slices hold the same characters.
pub fn str_eq(a: &str, b: &str) -> (r: bool)
    ensures
        r == (a@ == b@),
{
    let na = a.unicode_len();
    let nb = b.unicode_len();
    if na != nb {
        return false;
    }
    let mut i: usize = 0;
    while i < na
        invariant
            na == a@.len() == b@.len(),
            i <= na,
            forall|j: int| 0 <= j < i ==> a@[j] == b@[j],
        decreases na - i,
    {
        if a.get_char(i) != b.get_char(i) {
            return false;
        }
        i = i + 1;
    }
    proof {
        assert(a@ =~= b@);
    }
    true
}

/// Relies on `String::push`: appends the given character to the end of the
/// string.
#[verifier::external_body]
fn push_char(s: &mut String, c: char)
    ensures
        final(s)@ == old(s)@.push(c),
{
    s.push(c)
}

/// A fresh `String` holding the characters `v[lo..hi]`.
pub fn chars_to_string(v: &Vec<char>, lo: usize, hi: usize) -> (s: String)
    requires
        lo <= hi <= v@.len(),
    ensures
        s@ == v@.subrange(lo as int, hi as int),
{
    let mut s = String::new();
    let mut i: usize = lo;
    while i < hi
        invariant
            lo <= i <= hi <= v@.len(),
            s@ == v@.subrange(lo as int, i as int),
        decreases hi - i,
    {
        proof {
            assert(v@.subrange(lo as int, i as int + 1) =~= v@.subrange(
                lo as int,
                i as int,
            ).push(v@[i as int]));
        }
        push_char(&mut s, v[i]);
        i = i + 1;
    }
    s
}

} // verus!
