//! Character and string groundwork: whitespace classification, conversion
//! between `String` and `Vec<char>`, and substring containment, each pinned
//! to a spec function over `Seq<char>`.

use vstd::prelude::*;

verus! {

/// Relies on String::push of std: appends the given character to the end
/// of the string.
pub assume_specification [ String::push ](s: &mut String, ch: char)
    ensures
        final(s)@ == old(s)@.push(ch),
;

/// Whether two strings hold the same characters.
pub fn string_eq(a: &String, b: &String) -> (r: bool)
    ensures
        r == (a@ == b@),
{
    a.eq(b)
}

/// Whether two string slices hold the same characters.
pub fn str_eq(a: &str, b: &str) -> (r: bool)
    ensures
        r == (a@ == b@),
{
    let va = chars_vec(a);
    let vb = chars_vec(b);
    if va.len() != vb.len() {
        return false;
    }
    let mut i: usize = 0;
    while i < va.len()
        invariant
            0 <= i <= va@.len(),
            va@.len() == vb@.len(),
            va@ == a@,
            vb@ == b@,
            forall|k: int| 0 <= k < i ==> va@[k] == vb@[k],
        decreases va@.len() - i,
    {
        if va[i] != vb[i] {
            return false;
        }
        i = i + 1;
    }
    proof {
        assert(a@ =~= b@);
    }
    true
}

/// Whitespace, as the Unicode `White_Space` property lists it.
pub open spec fn is_space(c: char) -> bool {
    let u = c as u32;
    (0x9 <= u && u <= 0xD) || u == 0x20 || u == 0x85 || u == 0xA0 || u == 0x1680 || (0x2000 <= u
        && u <= 0x200A) || u == 0x2028 || u == 0x2029 || u == 0x202F || u == 0x205F || u == 0x3000
}

/// Decides [`is_space`] on a character.
pub fn char_is_space(c: char) -> (r: bool)
    ensures
        r == is_space(c),
{
    let u = c as u32;
    (0x9 <= u && u <= 0xD) || u == 0x20 || u == 0x85 || u == 0xA0 || u == 0x1680 || (0x2000 <= u
        && u <= 0x200A) || u == 0x2028 || u == 0x2029 || u == 0x202F || u == 0x205F || u == 0x3000
}

/// The characters of a string, in order, as a vector.
pub fn chars_vec(s: &str) -> (v: Vec<char>)
    ensures
        v@ == s@,
{
    let n = s.unicode_len();
    let mut v: Vec<char> = Vec::new();
    let mut i: usize = 0;
    while i < n
        invariant
            i <= n,
            n == s@.len(),
            v@ == s@.take(i as int),
        decreases n - i,
    {
        v.push(s.get_char(i));
        i = i + 1;
        assert(v@ =~= s@.take(i as int));
    }
    assert(v@ =~= s@);
    v
}

/// The string holding the characters `v[from .. to]`.
pub fn string_from_range(v: &Vec<char>, from: usize, to: usize) -> (s: String)
    requires
        from <= to <= v@.len(),
    ensures
        s@ == v@.subrange(from as int, to as int),
{
    let mut s = String::new();
    let mut i: usize = from;
    while i < to
        invariant
            from <= i <= to <= v@.len(),
            s@ == v@.subrange(from as int, i as int),
        decreases to - i,
    {
        s.push(v[i]);
        i = i + 1;
        assert(s@ =~= v@.subrange(from as int, i as int));
    }
    s
}

/// The string holding exactly the characters of `v`.
pub fn string_from_chars(v: &Vec<char>) -> (s: String)
    ensures
        s@ == v@,
{
    let s = string_from_range(v, 0, v.len());
    assert(v@.subrange(0, v@.len() as int) =~= v@);
    s
}

/// Line breaks flattened to single spaces: a `\r\n` pair or a lone `\n`
/// becomes one space, everything else stays.
pub open spec fn spec_squash_lines(s: Seq<char>) -> Seq<char>
    decreases s.len(),
{
    if s.len() == 0 {
        Seq::empty()
    } else if s.len() >= 2 && s[0] == '\r' && s[1] == '\n' {
        seq![' '] + spec_squash_lines(s.skip(2))
    } else if s[0] == '\n' {
        seq![' '] + spec_squash_lines(s.skip(1))
    } else {
        seq![s[0]] + spec_squash_lines(s.skip(1))
    }
}

/// The string without its trailing whitespace.
pub open spec fn spec_trim_end(s: Seq<char>) -> Seq<char>
    decreases s.len(),
{
    if s.len() > 0 && is_space(s.last()) {
        spec_trim_end(s.drop_last())
    } else {
        s
    }
}

/// Converted markup flattened to one line: line breaks become single
/// spaces and trailing whitespace goes; what an outside markup converter's
/// line-wise output becomes before storage.
pub fn squash_lines(s: &str) -> (out: String)
    ensures
        out@ == spec_trim_end(spec_squash_lines(s@)),
{
    let v = chars_vec(s);
    let mut flat: Vec<char> = Vec::new();
    let mut i: usize = 0;
    proof {
        assert(v@.skip(0) =~= v@);
        assert(flat@ =~= Seq::<char>::empty());
    }
    while i < v.len()
        invariant
            0 <= i <= v@.len(),
            v@ == s@,
            spec_squash_lines(s@) =~= flat@ + spec_squash_lines(v@.skip(i as int)),
        decreases v@.len() - i,
    {
        let ghost pre = v@.skip(i as int);
        assert(pre[0] == v@[i as int]);
        let ghost old_flat = flat@;
        if v[i] == '\r' && i + 1 < v.len() && v[i + 1] == '\n' {
            proof {
                assert(pre[1] == v@[i + 1]);
            }
            flat.push(' ');
            i = i + 2;
            proof {
                assert(pre.skip(2) =~= v@.skip(i as int));
                assert(flat@ =~= old_flat + seq![' ']);
                assert((old_flat + seq![' ']) + spec_squash_lines(pre.skip(2)) =~= old_flat + (
                seq![' '] + spec_squash_lines(pre.skip(2))));
            }
        } else {
            let c = if v[i] == '\n' {
                ' '
            } else {
                v[i]
            };
            flat.push(c);
            i = i + 1;
            proof {
                assert(pre.skip(1) =~= v@.skip(i as int));
                assert(flat@ =~= old_flat + seq![c]);
                assert((old_flat + seq![c]) + spec_squash_lines(pre.skip(1)) =~= old_flat + (
                seq![c] + spec_squash_lines(pre.skip(1))));
                if pre.len() >= 2 && pre[0] == '\r' && pre[1] == '\n' {
                    assert(false);
                }
            }
        }
    }
    proof {
        assert(v@.skip(i as int) =~= Seq::<char>::empty());
        assert(flat@ + Seq::<char>::empty() =~= flat@);
        assert(flat@ == spec_squash_lines(s@));
    }
    let mut end = flat.len();
    proof {
        assert(flat@.take(end as int) =~= flat@);
    }
    while end > 0 && char_is_space(flat[end - 1])
        invariant
            0 <= end <= flat@.len(),
            spec_trim_end(flat@) == spec_trim_end(flat@.take(end as int)),
        decreases end,
    {
        proof {
            assert(flat@.take(end as int).last() == flat@[end - 1]);
            assert(flat@.take(end as int).drop_last() =~= flat@.take(end - 1));
        }
        end = end - 1;
    }
    proof {
        if end > 0 {
            assert(flat@.take(end as int).last() == flat@[end - 1]);
            assert(!is_space(flat@.take(end as int).last()));
        }
        assert(spec_trim_end(flat@.take(end as int)) == flat@.take(end as int));
    }
    let out = string_from_range(&flat, 0, end);
    proof {
        assert(flat@.subrange(0, end as int) =~= flat@.take(end as int));
    }
    out
}

/// One left-to-right scan for whitespace-delimited tokens: every non-empty
/// run of non-whitespace characters is one token.
pub open spec fn scan_tokens(s: Seq<char>, cur: Seq<char>) -> Seq<Seq<char>>
    decreases s.len(),
{
    if s.len() == 0 {
        if cur.len() > 0 {
            seq![cur]
        } else {
            Seq::empty()
        }
    } else if is_space(s[0]) {
        (if cur.len() > 0 {
            seq![cur]
        } else {
            Seq::<Seq<char>>::empty()
        }) + scan_tokens(s.skip(1), Seq::empty())
    } else {
        scan_tokens(s.skip(1), cur.push(s[0]))
    }
}

/// The whitespace-delimited tokens of a string, in order.
pub open spec fn tokens_of(s: Seq<char>) -> Seq<Seq<char>> {
    scan_tokens(s, Seq::empty())
}

/// Tokens joined by single spaces.
pub open spec fn join_spaces(ts: Seq<Seq<char>>) -> Seq<char>
    decreases ts.len(),
{
    if ts.len() == 0 {
        Seq::empty()
    } else {
        ts[0] + (if ts.len() > 1 {
            seq![' ']
        } else {
            Seq::<char>::empty()
        }) + join_spaces(ts.skip(1))
    }
}

/// The first `n` whitespace-delimited words of a string, joined by single
/// spaces.
pub open spec fn spec_first_words(s: Seq<char>, n: int) -> Seq<char> {
    let ts = tokens_of(s);
    let k = if ts.len() <= n {
        ts.len() as int
    } else {
        n
    };
    join_spaces(ts.take(k))
}

/// The whitespace-delimited tokens of `raw`, as strings.
fn extract_tokens(raw: &Vec<char>) -> (out: Vec<String>)
    ensures
        out.deep_view() == tokens_of(raw@),
{
    let mut out: Vec<String> = Vec::new();
    let mut i: usize = 0;
    // The token gathered so far is raw[start .. i].
    let mut start: usize = 0;
    proof {
        assert(raw@.skip(0) =~= raw@);
        assert(raw@.subrange(0, 0) =~= Seq::<char>::empty());
    }
    while i < raw.len()
        invariant
            0 <= start <= i <= raw@.len(),
            tokens_of(raw@) =~= out.deep_view() + scan_tokens(
                raw@.skip(i as int),
                raw@.subrange(start as int, i as int),
            ),
        decreases raw@.len() - i,
    {
        let ghost pre = raw@.skip(i as int);
        let ghost cur = raw@.subrange(start as int, i as int);
        assert(pre[0] == raw@[i as int]);
        let ghost rest = pre.skip(1);
        let ghost old_out = out.deep_view();
        let c = raw[i];
        if char_is_space(c) {
            if start < i {
                let token = string_from_range(raw, start, i);
                out.push(token);
                proof {
                    assert(out.deep_view() =~= old_out.push(cur));
                    assert(old_out.push(cur) =~= old_out + seq![cur]);
                    assert(scan_tokens(pre, cur) == seq![cur] + scan_tokens(rest, Seq::empty()));
                    assert((old_out + seq![cur]) + scan_tokens(rest, Seq::empty()) =~= old_out + (
                    seq![cur] + scan_tokens(rest, Seq::empty())));
                }
            } else {
                proof {
                    assert(cur.len() == 0);
                    assert(scan_tokens(pre, cur) == Seq::<Seq<char>>::empty() + scan_tokens(
                        rest,
                        Seq::empty(),
                    ));
                    assert(Seq::<Seq<char>>::empty() + scan_tokens(rest, Seq::empty())
                        =~= scan_tokens(rest, Seq::empty()));
                }
            }
            start = i + 1;
            proof {
                assert(raw@.subrange(start as int, start as int) =~= Seq::<char>::empty());
            }
        } else {
            proof {
                assert(raw@.subrange(start as int, i + 1) =~= cur.push(raw@[i as int]));
                assert(scan_tokens(pre, cur) == scan_tokens(rest, cur.push(pre[0])));
            }
        }
        i = i + 1;
        proof {
            assert(rest =~= raw@.skip(i as int));
        }
    }
    let ghost cur = raw@.subrange(start as int, i as int);
    proof {
        assert(raw@.skip(i as int) =~= Seq::<char>::empty());
    }
    if start < i {
        let token = string_from_range(raw, start, i);
        let ghost old_out = out.deep_view();
        out.push(token);
        proof {
            assert(scan_tokens(Seq::<char>::empty(), cur) == seq![cur]);
            assert(out.deep_view() =~= old_out.push(cur));
            assert(old_out.push(cur) =~= old_out + seq![cur]);
        }
    } else {
        proof {
            assert(cur.len() == 0);
            assert(scan_tokens(Seq::<char>::empty(), cur) == Seq::<Seq<char>>::empty());
            assert(out.deep_view() + Seq::<Seq<char>>::empty() =~= out.deep_view());
        }
    }
    out
}

/// The first `n` whitespace-delimited words, joined by single spaces:
/// exactly [`spec_first_words`].
pub fn first_words(s: &str, n: usize) -> (out: String)
    ensures
        out@ == spec_first_words(s@, n as int),
{
    let raw = chars_vec(s);
    let mut tokens = extract_tokens(&raw);
    let ghost ts = tokens_of(s@);
    let k = if tokens.len() <= n {
        tokens.len()
    } else {
        n
    };
    let mut out = String::new();
    let mut i: usize = 0;
    proof {
        assert(ts.take(k as int).skip(0) =~= ts.take(k as int));
    }
    while i < k
        invariant
            0 <= i <= k <= tokens.deep_view().len(),
            tokens.deep_view() == ts,
            join_spaces(ts.take(k as int)) =~= out@ + join_spaces(
                ts.take(k as int).skip(i as int),
            ),
        decreases k - i,
    {
        let ghost pre = ts.take(k as int).skip(i as int);
        assert(pre[0] == ts[i as int]);
        out.append(tokens[i].as_str());
        if i + 1 < k {
            out.push(' ');
        }
        i = i + 1;
        proof {
            assert(tokens.deep_view()[i - 1] == tokens@[i - 1]@);
            assert(pre.skip(1) =~= ts.take(k as int).skip(i as int));
            if i < k {
                assert(pre.len() > 1);
            } else {
                assert(pre.len() == 1);
            }
        }
    }
    proof {
        assert(ts.take(k as int).skip(i as int) =~= Seq::<Seq<char>>::empty());
        assert(out@ + Seq::<char>::empty() =~= out@);
    }
    out
}

/// `needle` occurs in `hay` starting at position `at`.
pub open spec fn occurs_at(hay: Seq<char>, needle: Seq<char>, at: int) -> bool {
    0 <= at && at + needle.len() <= hay.len() && hay.subrange(at, at + needle.len()) == needle
}

/// `needle` occurs somewhere in `hay`.
pub open spec fn contains_seq(hay: Seq<char>, needle: Seq<char>) -> bool {
    exists|at: int| occurs_at(hay, needle, at)
}

/// Whether `hay[at ..]` starts with `needle`.
fn matches_at(hay: &Vec<char>, needle: &Vec<char>, at: usize) -> (r: bool)
    requires
        at + needle@.len() <= hay@.len(),
    ensures
        r == occurs_at(hay@, needle@, at as int),
{
    let hlen = hay.len();
    let mut k: usize = 0;
    while k < needle.len()
        invariant
            0 <= k <= needle@.len(),
            at + needle@.len() <= hlen == hay@.len(),
            forall|m: int| 0 <= m < k ==> hay@[at + m] == needle@[m],
        decreases needle@.len() - k,
    {
        if hay[at + k] != needle[k] {
            assert(hay@.subrange(at as int, at + needle@.len()) != needle@) by {
                assert(hay@.subrange(at as int, at + needle@.len())[k as int] != needle@[k as int]);
            }
            return false;
        }
        k = k + 1;
    }
    assert(hay@.subrange(at as int, at + needle@.len()) =~= needle@);
    true
}

/// The first position at which `needle` occurs in `hay`, if any.
pub fn find_first(hay: &Vec<char>, needle: &Vec<char>) -> (r: Option<usize>)
    ensures
        match r {
            Some(at) => occurs_at(hay@, needle@, at as int) && forall|m: int|
                0 <= m < at ==> !occurs_at(hay@, needle@, m),
            None => !contains_seq(hay@, needle@),
        },
{
    if needle.len() == 0 {
        assert(occurs_at(hay@, needle@, 0)) by {
            assert(hay@.subrange(0, 0) =~= needle@);
        }
        return Some(0);
    }
    if needle.len() > hay.len() {
        assert(forall|at: int| !occurs_at(hay@, needle@, at));
        return None;
    }
    let count = hay.len() - needle.len() + 1;
    let mut i: usize = 0;
    while i < count
        invariant
            0 <= i <= count,
            count + needle@.len() == hay@.len() + 1,
            needle@.len() >= 1,
            forall|m: int| 0 <= m < i ==> !occurs_at(hay@, needle@, m),
        decreases count - i,
    {
        if matches_at(hay, needle, i) {
            return Some(i);
        }
        i = i + 1;
    }
    assert(forall|at: int| at >= count ==> !occurs_at(hay@, needle@, at));
    None
}

/// The first position at which `needle` occurs in `hay`; meaningful only
/// when it occurs at all.
pub open spec fn spec_first_at(hay: Seq<char>, needle: Seq<char>) -> int {
    choose|at: int|
        occurs_at(hay, needle, at) && (forall|m: int| 0 <= m < at ==> !occurs_at(hay, needle, m))
}

/// The first occurrence is one position.
proof fn lemma_first_at_unique(hay: Seq<char>, needle: Seq<char>, at: int)
    requires
        occurs_at(hay, needle, at),
        forall|m: int| 0 <= m < at ==> !occurs_at(hay, needle, m),
    ensures
        spec_first_at(hay, needle) == at,
{
    let w = spec_first_at(hay, needle);
    assert(occurs_at(hay, needle, w) && (forall|m: int|
        0 <= m < w ==> !occurs_at(hay, needle, m)));
    if w < at {
        assert(!occurs_at(hay, needle, w));
    }
    if at < w {
        assert(!occurs_at(hay, needle, at));
    }
}

/// Where a needle occurs at all, some occurrence is the first.
proof fn lemma_first_at_from(hay: Seq<char>, needle: Seq<char>, w: int)
    requires
        occurs_at(hay, needle, w),
    ensures
        exists|at: int|
            occurs_at(hay, needle, at) && (forall|m: int|
                0 <= m < at ==> !occurs_at(hay, needle, m)),
    decreases w,
{
    if forall|m: int| 0 <= m < w ==> !occurs_at(hay, needle, m) {
        assert(occurs_at(hay, needle, w) && (forall|m: int|
            0 <= m < w ==> !occurs_at(hay, needle, m)));
    } else {
        let m0 = choose|m: int| 0 <= m < w && occurs_at(hay, needle, m);
        lemma_first_at_from(hay, needle, m0);
    }
}

/// When the needle occurs, [`spec_first_at`] names a real occurrence with
/// nothing earlier.
proof fn lemma_first_at_props(hay: Seq<char>, needle: Seq<char>)
    requires
        contains_seq(hay, needle),
    ensures
        occurs_at(hay, needle, spec_first_at(hay, needle)),
        forall|m: int| 0 <= m < spec_first_at(hay, needle) ==> !occurs_at(hay, needle, m),
{
    let w = choose|at: int| occurs_at(hay, needle, at);
    lemma_first_at_from(hay, needle, w);
}

/// A string with every non-overlapping occurrence of a non-empty term
/// wrapped in emphasis markup, scanned left to right; unchanged when the
/// term is empty or does not occur.
pub open spec fn spec_highlight_all(content: Seq<char>, term: Seq<char>) -> Seq<char>
    decreases content.len(),
        via spec_highlight_all_decreases
{
    if term.len() == 0 || !contains_seq(content, term) {
        content
    } else {
        let at = spec_first_at(content, term);
        content.take(at) + seq!['<', 'b', '>'] + content.subrange(at, at + term.len()) + seq![
            '<',
            '/',
            'b',
            '>',
        ] + spec_highlight_all(content.skip(at + term.len()), term)
    }
}

#[via_fn]
proof fn spec_highlight_all_decreases(content: Seq<char>, term: Seq<char>) {
    if term.len() > 0 && contains_seq(content, term) {
        lemma_first_at_props(content, term);
    }
}

/// The characters `v[from .. to]`, as a vector.
fn vec_range(v: &Vec<char>, from: usize, to: usize) -> (out: Vec<char>)
    requires
        from <= to <= v@.len(),
    ensures
        out@ == v@.subrange(from as int, to as int),
{
    let mut out: Vec<char> = Vec::new();
    let mut j: usize = from;
    while j < to
        invariant
            from <= j <= to <= v@.len(),
            out@ == v@.subrange(from as int, j as int),
        decreases to - j,
    {
        out.push(v[j]);
        j = j + 1;
        proof {
            assert(out@ =~= v@.subrange(from as int, j as int));
        }
    }
    out
}

/// Wraps every non-overlapping occurrence of `term` in `content` in
/// emphasis markup, left to right. Cosmetic: computed on a copy, after
/// scoring and ordering are settled.
#[verifier::rlimit(100)]
#[verifier::spinoff_prover]
pub fn highlight_matches(content: &str, term: &str) -> (out: String)
    ensures
        out@ == spec_highlight_all(content@, term@),
{
    let h = chars_vec(content);
    let t = chars_vec(term);
    let hn = h.len();
    if t.len() == 0 {
        return String::from_str(content);
    }
    let mut out = String::new();
    let mut pos: usize = 0;
    proof {
        assert(h@.skip(0) =~= h@);
        assert(out@ + spec_highlight_all(h@, t@) =~= spec_highlight_all(h@, t@));
    }
    loop
        invariant_except_break
            0 <= pos <= hn,
            hn == h@.len(),
            h@ == content@,
            t@ == term@,
            t@.len() >= 1,
            spec_highlight_all(content@, t@) == out@ + spec_highlight_all(
                h@.skip(pos as int),
                t@,
            ),
        ensures
            out@ == spec_highlight_all(content@, term@),
        decreases hn - pos,
    {
        let ghost suffix_view = h@.skip(pos as int);
        let ghost old_out = out@;
        let suffix = vec_range(&h, pos, hn);
        proof {
            assert(suffix@ =~= suffix_view);
        }
        match find_first(&suffix, &t) {
            None => {
                proof {
                    assert(spec_highlight_all(suffix_view, t@) == suffix_view);
                }
                let rest = string_from_range(&h, pos, hn);
                out.append(rest.as_str());
                proof {
                    assert(h@.subrange(pos as int, hn as int) =~= suffix_view);
                    assert(out@ == old_out + suffix_view);
                }
                break ;
            },
            Some(at) => {
                proof {
                    lemma_first_at_unique(suffix_view, t@, at as int);
                    assert(at + t@.len() <= suffix_view.len());
                }
                let ghost rec = spec_highlight_all(suffix_view.skip(at + t@.len()), t@);
                proof {
                    assert(spec_highlight_all(suffix_view, t@) == suffix_view.take(at as int)
                        + seq!['<', 'b', '>'] + suffix_view.subrange(at as int, at + t@.len())
                        + seq!['<', '/', 'b', '>'] + rec);
                }
                let seg = string_from_range(&h, pos, pos + at);
                out.append(seg.as_str());
                out.push('<');
                out.push('b');
                out.push('>');
                let mid = string_from_range(&h, pos + at, pos + at + t.len());
                out.append(mid.as_str());
                out.push('<');
                out.push('/');
                out.push('b');
                out.push('>');
                proof {
                    assert(suffix_view.take(at as int) =~= h@.subrange(pos as int, pos + at));
                    assert(suffix_view.subrange(at as int, at + t@.len()) =~= h@.subrange(
                        pos + at,
                        pos + at + t@.len(),
                    ));
                    assert(out@ =~= old_out + suffix_view.take(at as int) + seq!['<', 'b', '>']
                        + suffix_view.subrange(at as int, at + t@.len()) + seq![
                        '<',
                        '/',
                        'b',
                        '>',
                    ]);
                }
                pos = pos + at + t.len();
                proof {
                    assert(suffix_view.skip(at + t@.len()) =~= h@.skip(pos as int));
                    assert(out@ + spec_highlight_all(h@.skip(pos as int), t@) =~= old_out
                        + spec_highlight_all(suffix_view, t@));
                }
            },
        }
    }
    out
}

/// `needle` occurs in `hay` as a substring.
pub fn contains_str(hay: &str, needle: &str) -> (r: bool)
    ensures
        r == contains_seq(hay@, needle@),
{
    let h = chars_vec(hay);
    let n = chars_vec(needle);
    find_first(&h, &n).is_some()
}

} // verus!
