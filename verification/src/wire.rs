//! The wire framing shared by requests and responses: the blank-line
//! delimiter between head and body, head-section line splitting, header
//! lines, and the canonical CRLF rendering.

use vstd::prelude::*;

use crate::error::ParseError;
use crate::headers::{hinsert, keys_distinct, HeaderPairs, Headers};
use crate::text::{
    chars_to_string, find_char, find_char_from, is_space, lemma_find_char_at,
    lemma_find_char_none, lemma_find_char_shift, lemma_trim_space_prefix, subvec,
    trim, trim_range,
};

verus! {

/// The CRLF line terminator.
pub open spec fn crlf() -> Seq<char> {
    seq!['\r', '\n']
}

/// The blank-line delimiter that separates the head from the body.
pub open spec fn head_delim() -> Seq<char> {
    seq!['\r', '\n', '\r', '\n']
}

/// A line that may stand in a head section: free of carriage returns and
/// line feeds.
pub open spec fn line_ok(l: Seq<char>) -> bool {
    forall|j: int| 0 <= j < l.len() ==> l[j] != '\r' && l[j] != '\n'
}

/// A vocabulary token fit for a start line: nonempty, free of CR and LF,
/// and free of spaces and tabs.
pub open spec fn token_ok(s: Seq<char>) -> bool {
    line_ok(s) && s.len() > 0 && forall|j: int| 0 <= j < s.len() ==> !is_space(s[j])
}

/// A path fit for a request line: free of CR, LF and the space separator.
pub open spec fn path_ok(s: Seq<char>) -> bool {
    line_ok(s) && forall|j: int| 0 <= j < s.len() ==> s[j] != ' '
}

/// Whether the blank-line delimiter stands at position `i` of `s`.
pub open spec fn delim_at(s: Seq<char>, i: int) -> bool {
    0 <= i && i + 4 <= s.len() && s.subrange(i, i + 4) == head_delim()
}

/// The first position at or after `i` where the blank-line delimiter
/// stands in `s`, if any.
pub open spec fn find_delim_from(s: Seq<char>, i: nat) -> Option<nat>
    decreases s.len() - i,
{
    if i + 4 > s.len() {
        None
    } else if s.subrange(i as int, i as int + 4) == head_delim() {
        Some(i)
    } else {
        find_delim_from(s, i + 1)
    }
}

/// Searching from `i` skips positions where the delimiter does not stand.
pub proof fn lemma_find_delim_skip(s: Seq<char>, i: nat, k: nat)
    requires
        i <= k,
        forall|j: int| i <= j < k ==> !delim_at(s, j),
    ensures
        find_delim_from(s, i) == find_delim_from(s, k),
    decreases k - i,
{
    if i < k {
        if i + 4 <= s.len() {
            assert(!delim_at(s, i as int));
        }
        lemma_find_delim_skip(s, i + 1, k);
    }
}

/// The search finds `k` when the delimiter first stands there.
pub proof fn lemma_find_delim_at(s: Seq<char>, i: nat, k: nat)
    requires
        i <= k,
        delim_at(s, k as int),
        forall|j: int| i <= j < k ==> !delim_at(s, j),
    ensures
        find_delim_from(s, i) == Some(k),
{
    lemma_find_delim_skip(s, i, k);
}

/// Searching a concatenation beyond the prefix is searching the suffix.
pub proof fn lemma_find_delim_shift(pre: Seq<char>, s: Seq<char>, i: nat)
    ensures
        find_delim_from(pre + s, pre.len() + i) == match find_delim_from(s, i) {
            Some(j) => Some((pre.len() + j) as nat),
            None => None,
        },
    decreases s.len() - i,
{
    let t = pre + s;
    if i + 4 > s.len() {
        assert(find_delim_from(t, pre.len() + i) == None::<nat>) by {
            assert(pre.len() + i + 4 > t.len());
        }
    } else {
        assert(t.subrange(pre.len() + i as int, pre.len() + i as int + 4) =~= s.subrange(
            i as int,
            i as int + 4,
        ));
        if s.subrange(i as int, i as int + 4) == head_delim() {
        } else {
            lemma_find_delim_shift(pre, s, i + 1);
        }
    }
}

/// The first position of the blank-line delimiter in `v`, if any.
pub fn find_delim(v: &Vec<char>) -> (r: Option<usize>)
    ensures
        match r {
            Some(p) => p + 4 <= v@.len() && find_delim_from(v@, 0) == Some(p as nat),
            None => find_delim_from(v@, 0) == None::<nat>,
        },
{
    let n = v.len();
    if n < 4 {
        return None;
    }
    let mut i: usize = 0;
    while i <= n - 4
        invariant
            i <= n - 3,
            4 <= n == v@.len(),
            find_delim_from(v@, 0) == find_delim_from(v@, i as nat),
        decreases n - i,
    {
        if v[i] == '\r' && v[i + 1] == '\n' && v[i + 2] == '\r' && v[i + 3] == '\n' {
            proof {
                assert(v@.subrange(i as int, i as int + 4) =~= head_delim());
            }
            return Some(i);
        }
        proof {
            assert(v@.subrange(i as int, i as int + 4)[0] == v@[i as int]);
            assert(v@.subrange(i as int, i as int + 4)[1] == v@[i as int + 1]);
            assert(v@.subrange(i as int, i as int + 4)[2] == v@[i as int + 2]);
            assert(v@.subrange(i as int, i as int + 4)[3] == v@[i as int + 3]);
            assert(v@.subrange(i as int, i as int + 4) != head_delim());
        }
        i = i + 1;
    }
    None
}

/// The line without one trailing carriage return, if it carries one.
pub open spec fn strip_cr(l: Seq<char>) -> Seq<char> {
    if l.len() > 0 && l[l.len() - 1] == '\r' {
        l.drop_last()
    } else {
        l
    }
}

#[via_fn]
proof fn split_lines_dec(s: Seq<char>) {
    lemma_find_char_in_range(s, '\n', 0);
}

/// Where the first occurrence of `c` at or after `i` lies, when there is
/// one.
pub proof fn lemma_find_char_in_range(s: Seq<char>, c: char, i: nat)
    ensures
        match find_char_from(s, c, i) {
            Some(j) => i <= j < s.len() && s[j as int] == c && forall|t: int|
                i <= t < j ==> s[t] != c,
            None => forall|t: int| i <= t < s.len() ==> s[t] != c,
        },
    decreases s.len() - i,
{
    if i < s.len() && s[i as int] != c {
        lemma_find_char_in_range(s, c, i + 1);
    }
}

/// The head section as lines: split on each line feed, dropping one
/// carriage return before it; a trailing segment without a line feed is a
/// line of its own, and an empty head has no lines.
pub open spec fn split_lines(s: Seq<char>) -> Seq<Seq<char>>
    decreases s.len(),
    via split_lines_dec
{
    if s.len() == 0 {
        seq![]
    } else {
        match find_char_from(s, '\n', 0) {
            Some(j) => seq![strip_cr(s.subrange(0, j as int))] + split_lines(
                s.subrange(j as int + 1, s.len() as int),
            ),
            None => seq![strip_cr(s)],
        }
    }
}

/// The lines of the head section `v[0..end]`.
pub fn split_head_lines(v: &Vec<char>, end: usize) -> (r: Vec<Vec<char>>)
    requires
        end <= v@.len(),
    ensures
        r.deep_view() == split_lines(v@.subrange(0, end as int)),
{
    let ghost whole = v@.subrange(0, end as int);
    let mut lines: Vec<Vec<char>> = Vec::new();
    let mut pos: usize = 0;
    proof {
        assert(lines.deep_view() =~~= Seq::<Seq<char>>::empty());
        assert(Seq::<Seq<char>>::empty() + split_lines(whole) =~= split_lines(whole));
    }
    while pos < end
        invariant
            pos <= end <= v@.len(),
            whole == v@.subrange(0, end as int),
            split_lines(whole) == lines.deep_view() + split_lines(
                v@.subrange(pos as int, end as int),
            ),
        decreases end - pos,
    {
        let ghost rest = v@.subrange(pos as int, end as int);
        let ghost pre = v@.subrange(0, pos as int);
        proof {
            assert(pre + rest =~= v@.subrange(0, end as int));
            lemma_find_char_in_range(rest, '\n', 0);
        }
        // Search for the next line feed inside the head section only.
        let mut j: usize = pos;
        let mut found: bool = false;
        while j < end && !found
            invariant
                pos <= j <= end <= v@.len(),
                rest == v@.subrange(pos as int, end as int),
                !found ==> forall|t: int| 0 <= t < j - pos ==> rest[t] != '\n',
                found ==> pos <= j < end && v@[j as int] == '\n' && forall|t: int|
                    0 <= t < j - pos ==> rest[t] != '\n',
            decreases end - j + (if found { 0int } else { 1int }),
        {
            if v[j] == '\n' {
                found = true;
            } else {
                proof {
                    assert(rest[j - pos] == v@[j as int]);
                }
                j = j + 1;
            }
        }
        let ghost prev = lines.deep_view();
        if found {
            proof {
                assert(rest[j - pos] == v@[j as int]);
                lemma_find_char_at(rest, '\n', 0, (j - pos) as nat);
            }
            let hi = if j > pos && v[j - 1] == '\r' {
                j - 1
            } else {
                j
            };
            let line = subvec(v, pos, hi);
            proof {
                assert(rest.subrange(0, j - pos) =~= v@.subrange(pos as int, j as int));
                if j > pos && v@[j as int - 1] == '\r' {
                    assert(strip_cr(rest.subrange(0, j - pos)) =~= v@.subrange(
                        pos as int,
                        j as int - 1,
                    ));
                } else {
                    assert(strip_cr(rest.subrange(0, j - pos)) =~= v@.subrange(
                        pos as int,
                        j as int,
                    ));
                }
                assert(rest.subrange(j - pos + 1, rest.len() as int) =~= v@.subrange(
                    j as int + 1,
                    end as int,
                ));
            }
            lines.push(line);
            proof {
                assert(lines.deep_view() =~~= prev.push(line@));
                assert(split_lines(rest) == seq![line@] + split_lines(
                    v@.subrange(j as int + 1, end as int),
                ));
                assert(prev.push(line@) + split_lines(v@.subrange(j as int + 1, end as int))
                    =~= prev + split_lines(rest));
            }
            pos = j + 1;
        } else {
            proof {
                lemma_find_char_none(rest, '\n', 0);
            }
            let hi = if end > pos && v[end - 1] == '\r' {
                end - 1
            } else {
                end
            };
            let line = subvec(v, pos, hi);
            proof {
                if end > pos && v@[end as int - 1] == '\r' {
                    assert(strip_cr(rest) =~= v@.subrange(pos as int, end as int - 1));
                } else {
                    assert(strip_cr(rest) =~= v@.subrange(pos as int, end as int));
                }
            }
            lines.push(line);
            proof {
                assert(lines.deep_view() =~~= prev.push(line@));
                assert(split_lines(rest) == seq![line@]);
                assert(prev.push(line@) + split_lines(v@.subrange(end as int, end as int)) =~= prev
                    + split_lines(rest));
            }
            pos = end;
        }
    }
    proof {
        assert(v@.subrange(pos as int, end as int).len() == 0);
        assert(split_lines(whole) =~= lines.deep_view());
    }
    lines
}

/// The head lines joined by CRLF, with no trailing terminator.
pub open spec fn crlf_join(lines: Seq<Seq<char>>) -> Seq<char>
    decreases lines.len(),
{
    if lines.len() == 0 {
        Seq::empty()
    } else if lines.len() == 1 {
        lines[0]
    } else {
        lines[0] + crlf() + crlf_join(lines.drop_first())
    }
}

/// The head lines, each followed by its CRLF terminator.
pub open spec fn lines_block(lines: Seq<Seq<char>>) -> Seq<char>
    decreases lines.len(),
{
    if lines.len() == 0 {
        Seq::empty()
    } else {
        lines[0] + crlf() + lines_block(lines.drop_first())
    }
}

/// A rendered message: every head line with its terminator, the blank
/// line, then the body verbatim.
pub open spec fn render(lines: Seq<Seq<char>>, body: Seq<char>) -> Seq<char> {
    lines_block(lines) + crlf() + body
}

/// A nonempty block is the joined lines followed by one terminator.
pub proof fn lemma_lines_block_join(lines: Seq<Seq<char>>)
    requires
        lines.len() >= 1,
    ensures
        lines_block(lines) == crlf_join(lines) + crlf(),
    decreases lines.len(),
{
    if lines.len() == 1 {
        assert(lines_block(lines.drop_first()) == Seq::<char>::empty());
        assert(lines[0] + crlf() + Seq::<char>::empty() =~= lines[0] + crlf());
    } else {
        lemma_lines_block_join(lines.drop_first());
        assert(lines[0] + crlf() + (crlf_join(lines.drop_first()) + crlf()) =~= (lines[0] + crlf()
            + crlf_join(lines.drop_first())) + crlf());
    }
}

/// Appending a line to a block appends the line and its terminator.
pub proof fn lemma_lines_block_snoc(lines: Seq<Seq<char>>, l: Seq<char>)
    ensures
        lines_block(lines.push(l)) == lines_block(lines) + l + crlf(),
    decreases lines.len(),
{
    let p = lines.push(l);
    assert(p.len() == lines.len() + 1);
    assert(lines_block(p) == p[0] + crlf() + lines_block(p.drop_first()));
    if lines.len() == 0 {
        assert(p[0] == l);
        assert(p.drop_first() =~= Seq::<Seq<char>>::empty());
        assert(lines_block(p.drop_first()) == Seq::<char>::empty());
        assert(l + crlf() + Seq::<char>::empty() =~= Seq::<char>::empty() + l + crlf());
        assert(lines_block(lines) == Seq::<char>::empty());
    } else {
        lemma_lines_block_snoc(lines.drop_first(), l);
        assert(p[0] == lines[0]);
        assert(p.drop_first() =~= lines.drop_first().push(l));
        assert(lines_block(p.drop_first()) == lines_block(lines.drop_first()) + l + crlf());
        assert(lines_block(lines) == lines[0] + crlf() + lines_block(lines.drop_first()));
        assert(lines[0] + crlf() + (lines_block(lines.drop_first()) + l + crlf()) =~= (lines[0]
            + crlf() + lines_block(lines.drop_first())) + l + crlf());
    }
}

/// The canonical wire form of one header pair: `name`, a colon and a
/// space, then `value`.
pub open spec fn header_line_of(p: (Seq<char>, Seq<char>)) -> Seq<char> {
    p.0 + seq![':', ' '] + p.1
}

/// The wire lines of a whole header mapping, in insertion order.
pub open spec fn header_lines_of(hs: HeaderPairs) -> Seq<Seq<char>> {
    hs.map_values(|p: (Seq<char>, Seq<char>)| header_line_of(p))
}

/// A header name fit for the wire: free of CR, LF and the colon
/// separator, with no surrounding whitespace.
pub open spec fn name_ok(n: Seq<char>) -> bool {
    line_ok(n) && (forall|j: int| 0 <= j < n.len() ==> n[j] != ':') && trim(n) == n
}

/// A header value fit for the wire: free of CR and LF, with no
/// surrounding whitespace.
pub open spec fn value_ok(v: Seq<char>) -> bool {
    line_ok(v) && trim(v) == v
}

/// A header mapping fit for the wire: distinct names, every pair fit.
pub open spec fn header_pairs_ok(hs: HeaderPairs) -> bool {
    keys_distinct(hs) && forall|i: int|
        0 <= i < hs.len() ==> name_ok(#[trigger] hs[i].0) && value_ok(hs[i].1)
}

/// One parsed header line: the name before the first colon and the value
/// after it, both trimmed; nothing when the line has no colon.
pub open spec fn parse_header_line(l: Seq<char>) -> Option<(Seq<char>, Seq<char>)> {
    match find_char_from(l, ':', 0) {
        None => None,
        Some(j) => Some(
            (trim(l.subrange(0, j as int)), trim(l.subrange(j as int + 1, l.len() as int))),
        ),
    }
}

/// The header mapping built from head lines on top of `acc`, later writes
/// winning; nothing when some line has no colon.
pub open spec fn build_headers(acc: HeaderPairs, lines: Seq<Seq<char>>) -> Option<HeaderPairs>
    decreases lines.len(),
{
    if lines.len() == 0 {
        Some(acc)
    } else {
        match parse_header_line(lines[0]) {
            None => None,
            Some(kv) => build_headers(hinsert(acc, kv.0, kv.1), lines.drop_first()),
        }
    }
}

/// In a rendered message whose head lines are nonempty and free of CR and
/// LF, the first blank-line delimiter stands exactly at the end of the
/// joined head, whatever the body holds.
pub proof fn lemma_render_delim(lines: Seq<Seq<char>>, body: Seq<char>)
    requires
        lines.len() >= 1,
        forall|i: int|
            0 <= i < lines.len() ==> line_ok(#[trigger] lines[i]) && lines[i].len() > 0,
    ensures
        find_delim_from(render(lines, body), 0) == Some(crlf_join(lines).len() as nat),
    decreases lines.len(),
{
    let t = render(lines, body);
    let l0 = lines[0];
    let k = l0.len() as int;
    if lines.len() == 1 {
        assert(lines_block(lines.drop_first()) == Seq::<char>::empty());
        assert(t =~= l0 + crlf() + crlf() + body);
        assert(delim_at(t, k)) by {
            assert(t.subrange(k, k + 4) =~= head_delim());
        }
        assert forall|j: int| 0 <= j < k implies !delim_at(t, j) by {
            assert(t[j] == l0[j]);
            if j + 4 <= t.len() {
                assert(t.subrange(j, j + 4)[0] == t[j]);
                assert(head_delim()[0] == '\r');
            }
        }
        lemma_find_delim_at(t, 0, l0.len());
        assert(crlf_join(lines) == l0);
    } else {
        let rest = lines.drop_first();
        let t2 = render(rest, body);
        lemma_render_delim(rest, body);
        assert(t =~= (l0 + crlf()) + t2);
        lemma_find_delim_shift(l0 + crlf(), t2, 0);
        assert(find_delim_from(t, (k + 2) as nat) == Some(
            (k + 2 + crlf_join(rest).len()) as nat,
        ));
        assert(line_ok(rest[0]) && rest[0].len() > 0) by {
            assert(rest[0] == lines[1]);
        }
        assert(t2[0] == rest[0][0]) by {
            assert(lines_block(rest) == rest[0] + crlf() + lines_block(rest.drop_first()));
        }
        assert forall|j: int| 0 <= j < k + 2 implies !delim_at(t, j) by {
            if j + 4 <= t.len() {
                assert(t.subrange(j, j + 4)[0] == t[j]);
                assert(t.subrange(j, j + 4)[2] == t[j + 2]);
                if j < k {
                    assert(t[j] == l0[j]);
                } else if j == k {
                    assert(t[j + 2] == t2[0]);
                    assert(t2[0] != '\r');
                    assert(head_delim()[2] == '\r');
                } else {
                    assert(t[j] == '\n');
                }
            }
        }
        lemma_find_delim_skip(t, 0, (k + 2) as nat);
        assert(crlf_join(lines) == l0 + crlf() + crlf_join(rest));
    }
}

/// Splitting the joined head lines yields the lines back, provided each
/// is nonempty and free of CR and LF.
pub proof fn lemma_split_crlf_join(lines: Seq<Seq<char>>)
    requires
        lines.len() >= 1,
        forall|i: int|
            0 <= i < lines.len() ==> line_ok(#[trigger] lines[i]) && lines[i].len() > 0,
    ensures
        split_lines(crlf_join(lines)) == lines,
    decreases lines.len(),
{
    let s = crlf_join(lines);
    let l0 = lines[0];
    let k = l0.len() as int;
    if lines.len() == 1 {
        assert(s == l0);
        lemma_find_char_none(s, '\n', 0);
        assert(strip_cr(s) == s);
        assert(seq![l0] =~= lines);
    } else {
        let rest = lines.drop_first();
        assert(s == l0 + crlf() + crlf_join(rest));
        assert(s[k] == '\r');
        assert(s[k + 1] == '\n');
        assert forall|j: int| 0 <= j < k + 1 implies s[j] != '\n' by {
            if j < k {
                assert(s[j] == l0[j]);
            }
        }
        lemma_find_char_at(s, '\n', 0, (k + 1) as nat);
        assert(s.subrange(0, k + 1) =~= l0.push('\r'));
        assert(strip_cr(l0.push('\r')) =~= l0);
        assert(s.subrange(k + 2, s.len() as int) =~= crlf_join(rest));
        assert(forall|i: int|
            0 <= i < rest.len() ==> line_ok(#[trigger] rest[i]) && rest[i].len() > 0);
        lemma_split_crlf_join(rest);
        assert(seq![l0] + rest =~= lines);
    }
}

/// A well-formed header pair's wire line parses back to the pair.
pub proof fn lemma_header_line_inverse(p: (Seq<char>, Seq<char>))
    requires
        name_ok(p.0),
        value_ok(p.1),
    ensures
        parse_header_line(header_line_of(p)) == Some(p),
{
    let l = header_line_of(p);
    let k = p.0.len() as int;
    assert(l[k] == ':');
    assert forall|j: int| 0 <= j < k implies l[j] != ':' by {
        assert(l[j] == p.0[j]);
    }
    lemma_find_char_at(l, ':', 0, p.0.len());
    assert(l.subrange(0, k) =~= p.0);
    assert(l.subrange(k + 1, l.len() as int) =~= seq![' '] + p.1);
    lemma_trim_space_prefix(p.1);
    assert((p.0, p.1) == p);
}

/// Rendering well-formed header pairs as lines and building a mapping
/// from those lines on top of `acc` appends the pairs unchanged.
pub proof fn lemma_build_headers_inverse(acc: HeaderPairs, hs: HeaderPairs)
    requires
        keys_distinct(acc + hs),
        forall|i: int|
            0 <= i < hs.len() ==> name_ok(#[trigger] hs[i].0) && value_ok(hs[i].1),
    ensures
        build_headers(acc, header_lines_of(hs)) == Some(acc + hs),
    decreases hs.len(),
{
    let ls = header_lines_of(hs);
    if hs.len() == 0 {
        assert(acc + hs =~= acc);
        assert(ls.len() == 0);
    } else {
        assert(ls[0] == header_line_of(hs[0]));
        lemma_header_line_inverse(hs[0]);
        assert forall|j: int| 0 <= j < acc.len() implies acc[j].0 != hs[0].0 by {
            assert((acc + hs)[j] == acc[j]);
            assert((acc + hs)[acc.len() as int] == hs[0]);
        }
        crate::headers::lemma_hinsert_absent(acc, hs[0].0, hs[0].1);
        assert(hinsert(acc, hs[0].0, hs[0].1) == acc.push((hs[0].0, hs[0].1)));
        assert((hs[0].0, hs[0].1) == hs[0]);
        let acc2 = acc.push(hs[0]);
        let rest = hs.drop_first();
        assert(acc2 + rest =~= acc + hs);
        assert(forall|i: int|
            0 <= i < rest.len() ==> name_ok(#[trigger] rest[i].0) && value_ok(rest[i].1));
        lemma_build_headers_inverse(acc2, rest);
        assert(ls.drop_first() =~= header_lines_of(rest));
        assert(build_headers(acc, ls) == build_headers(acc2, ls.drop_first()));
    }
}

/// Builds the header mapping from the head lines after the start line.
pub fn parse_header_lines(lines: &Vec<Vec<char>>, start: usize) -> (r: Result<
    Headers,
    ParseError,
>)
    requires
        start <= lines@.len(),
    ensures
        match build_headers(
            Seq::empty(),
            lines.deep_view().subrange(start as int, lines.deep_view().len() as int),
        ) {
            Some(hs) => r is Ok && r->Ok_0@ == hs && r->Ok_0.wf(),
            None => r == Err::<Headers, ParseError>(ParseError::MalformedHeader),
        },
{
    let ghost all = lines.deep_view();
    let n = lines.len();
    proof {
        assert(all.len() == n);
    }
    let mut h = Headers::new();
    let mut i: usize = start;
    proof {
        assert(h@ =~= Seq::<(Seq<char>, Seq<char>)>::empty());
    }
    while i < n
        invariant
            start <= i <= n == lines@.len(),
            all == lines.deep_view(),
            all.len() == n,
            h.wf(),
            build_headers(Seq::empty(), all.subrange(start as int, n as int)) == build_headers(
                h@,
                all.subrange(i as int, n as int),
            ),
        decreases n - i,
    {
        let line = &lines[i];
        let ghost suffix = all.subrange(i as int, n as int);
        proof {
            assert(suffix[0] =~= line@);
            assert(suffix.drop_first() =~= all.subrange(i as int + 1, n as int));
        }
        match find_char(line, 0, ':') {
            None => {
                proof {
                    assert(parse_header_line(line@) == None::<(Seq<char>, Seq<char>)>);
                }
                return Err(ParseError::MalformedHeader);
            },
            Some(j) => {
                let m = line.len();
                let (a1, b1) = trim_range(line, 0, j);
                let name = chars_to_string(line, a1, b1);
                let (a2, b2) = trim_range(line, j + 1, m);
                let value = chars_to_string(line, a2, b2);
                proof {
                    assert(parse_header_line(line@) == Some((name@, value@)));
                }
                let ghost before = h@;
                h.insert(name, value);
                proof {
                    assert(build_headers(before, suffix) == build_headers(
                        h@,
                        suffix.drop_first(),
                    ));
                }
                i = i + 1;
            },
        }
    }
    proof {
        assert(all.subrange(n as int, n as int).len() == 0);
    }
    Ok(h)
}

/// Appends every header line, each with its terminator.
pub fn write_headers(out: &mut String, h: &Headers)
    ensures
        final(out)@ == old(out)@ + lines_block(header_lines_of(h@)),
{
    let n = h.len();
    let mut i: usize = 0;
    proof {
        assert(old(out)@ + lines_block(header_lines_of(h@).subrange(0, 0)) =~= old(out)@);
    }
    while i < n
        invariant
            i <= n == h@.len(),
            out@ == old(out)@ + lines_block(header_lines_of(h@).subrange(0, i as int)),
        decreases n - i,
    {
        let ghost hl = header_lines_of(h@);
        let e = h.entry_at(i);
        out.append(e.0.as_str());
        out.append(": ");
        out.append(e.1.as_str());
        out.append("\r\n");
        proof {
            reveal_strlit(": ");
            reveal_strlit("\r\n");
            assert(": "@ =~= seq![':', ' ']);
            assert("\r\n"@ =~= crlf());
            lemma_lines_block_snoc(hl.subrange(0, i as int), hl[i as int]);
            assert(hl.subrange(0, i as int + 1) =~= hl.subrange(0, i as int).push(hl[i as int]));
            assert(hl[i as int] == header_line_of(h@[i as int]));
            assert(out@ =~= old(out)@ + lines_block(hl.subrange(0, i as int + 1)));
        }
        i = i + 1;
    }
    proof {
        assert(header_lines_of(h@).subrange(0, n as int) =~= header_lines_of(h@));
    }
}

} // verus!
