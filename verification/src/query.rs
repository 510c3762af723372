//! Query parsing: a raw query string becomes a structured query with quoted
//! phrase literals and negated terms.
//!
//! Rules: backslashes are stripped from the input before phrase extraction,
//! so a literal escaped quote cannot be expressed (a known limitation).
//! Double quotes then pair up left to right, and each non-empty run of
//! characters between a pair is one phrase. Negated terms are
//! whitespace-delimited tokens of the original string that begin with `-`,
//! with that marker stripped. Empty extraction lists are absent, not empty,
//! and the raw text is kept unmodified.

use vstd::prelude::*;

use crate::text::{char_is_space, chars_vec, is_space, string_from_range};

verus! {

/// A raw query string, parsed. Produced by [`parse_query`].
#[derive(Clone)]
pub struct ParsedQuery {
    /// The raw query text, unmodified.
    pub query: String,
    /// The quoted phrase literals, in order; absent when there are none.
    pub quote_words: Option<Vec<String>>,
    /// The negated terms, marker stripped, in order; absent when there are none.
    pub negated_words: Option<Vec<String>>,
}

/// `s` with every backslash removed.
pub open spec fn strip_slashes(s: Seq<char>) -> Seq<char>
    decreases s.len(),
{
    if s.len() == 0 {
        Seq::empty()
    } else if s[0] == '\\' {
        strip_slashes(s.skip(1))
    } else {
        seq![s[0]] + strip_slashes(s.skip(1))
    }
}

/// One left-to-right scan for quoted phrases. Outside a phrase (`inside`
/// false) everything up to the next quote is skipped; inside one, characters
/// gather in `cur` until the closing quote, and a non-empty gathering is one
/// phrase. An unclosed final quote yields nothing.
pub open spec fn scan_phrases(s: Seq<char>, inside: bool, cur: Seq<char>) -> Seq<Seq<char>>
    decreases s.len(),
{
    if s.len() == 0 {
        Seq::empty()
    } else if !inside {
        if s[0] == '"' {
            scan_phrases(s.skip(1), true, Seq::empty())
        } else {
            scan_phrases(s.skip(1), false, cur)
        }
    } else {
        if s[0] == '"' {
            (if cur.len() > 0 {
                seq![cur]
            } else {
                Seq::<Seq<char>>::empty()
            }) + scan_phrases(s.skip(1), false, Seq::empty())
        } else {
            scan_phrases(s.skip(1), true, cur.push(s[0]))
        }
    }
}

/// The quoted phrases of a query, after backslash stripping.
pub open spec fn phrases_of(raw: Seq<char>) -> Seq<Seq<char>> {
    scan_phrases(strip_slashes(raw), false, Seq::empty())
}

/// A token beginning with the negation marker.
pub open spec fn is_neg_token(t: Seq<char>) -> bool {
    t.len() > 0 && t[0] == '-'
}

/// One left-to-right scan for negated terms: whitespace splits tokens, and a
/// token beginning with `-` contributes itself with the marker stripped.
pub open spec fn scan_negated(s: Seq<char>, cur: Seq<char>) -> Seq<Seq<char>>
    decreases s.len(),
{
    if s.len() == 0 {
        if is_neg_token(cur) {
            seq![cur.skip(1)]
        } else {
            Seq::empty()
        }
    } else if is_space(s[0]) {
        (if is_neg_token(cur) {
            seq![cur.skip(1)]
        } else {
            Seq::<Seq<char>>::empty()
        }) + scan_negated(s.skip(1), Seq::empty())
    } else {
        scan_negated(s.skip(1), cur.push(s[0]))
    }
}

/// The negated terms of a query, markers stripped.
pub open spec fn negated_of(raw: Seq<char>) -> Seq<Seq<char>> {
    scan_negated(raw, Seq::empty())
}

/// `v` with every backslash removed.
fn strip_slashes_vec(v: &Vec<char>) -> (out: Vec<char>)
    ensures
        out@ == strip_slashes(v@),
{
    let mut out: Vec<char> = Vec::new();
    let mut i: usize = 0;
    proof {
        assert(v@.skip(0) =~= v@);
    }
    while i < v.len()
        invariant
            0 <= i <= v@.len(),
            strip_slashes(v@) =~= out@ + strip_slashes(v@.skip(i as int)),
        decreases v@.len() - i,
    {
        let ghost pre = v@.skip(i as int);
        assert(pre[0] == v@[i as int]);
        if v[i] != '\\' {
            out.push(v[i]);
        }
        i = i + 1;
        proof {
            assert(pre.skip(1) =~= v@.skip(i as int));
        }
    }
    proof {
        assert(v@.skip(i as int) =~= Seq::<char>::empty());
        assert(out@ + Seq::<char>::empty() =~= out@);
    }
    out
}

/// The quoted phrases of `clean` (already backslash-stripped), as strings.
fn extract_phrases(clean: &Vec<char>) -> (out: Vec<String>)
    ensures
        out.deep_view() == scan_phrases(clean@, false, Seq::empty()),
{
    let mut out: Vec<String> = Vec::new();
    let mut i: usize = 0;
    let mut inside: bool = false;
    // While inside a phrase, the phrase gathered so far is clean[start .. i].
    let mut start: usize = 0;
    proof {
        assert(clean@.skip(0) =~= clean@);
    }
    while i < clean.len()
        invariant
            0 <= i <= clean@.len(),
            inside ==> 0 <= start <= i,
            scan_phrases(clean@, false, Seq::empty()) =~= out.deep_view() + scan_phrases(
                clean@.skip(i as int),
                inside,
                if inside {
                    clean@.subrange(start as int, i as int)
                } else {
                    Seq::empty()
                },
            ),
        decreases clean@.len() - i,
    {
        let ghost pre = clean@.skip(i as int);
        let ghost cur: Seq<char> = if inside {
            clean@.subrange(start as int, i as int)
        } else {
            Seq::empty()
        };
        assert(pre[0] == clean@[i as int]);
        let ghost rest = pre.skip(1);
        let ghost old_out = out.deep_view();
        let c = clean[i];
        if !inside {
            if c == '"' {
                inside = true;
                start = i + 1;
                proof {
                    assert(scan_phrases(pre, false, cur) == scan_phrases(rest, true, Seq::empty()));
                    assert(clean@.subrange(start as int, start as int) =~= Seq::<char>::empty());
                }
            } else {
                proof {
                    assert(scan_phrases(pre, false, cur) == scan_phrases(rest, false, cur));
                }
            }
        } else {
            if c == '"' {
                if i > start {
                    let phrase = string_from_range(clean, start, i);
                    out.push(phrase);
                    proof {
                        assert(out.deep_view() =~= old_out.push(cur));
                        assert(old_out.push(cur) =~= old_out + seq![cur]);
                        assert(scan_phrases(pre, true, cur) == seq![cur] + scan_phrases(
                            rest,
                            false,
                            Seq::empty(),
                        ));
                        assert((old_out + seq![cur]) + scan_phrases(rest, false, Seq::empty())
                            =~= old_out + (seq![cur] + scan_phrases(rest, false, Seq::empty())));
                    }
                } else {
                    proof {
                        assert(cur.len() == 0);
                        assert(scan_phrases(pre, true, cur) == Seq::<Seq<char>>::empty()
                            + scan_phrases(rest, false, Seq::empty()));
                        assert(Seq::<Seq<char>>::empty() + scan_phrases(rest, false, Seq::empty())
                            =~= scan_phrases(rest, false, Seq::empty()));
                    }
                }
                inside = false;
            } else {
                proof {
                    assert(clean@.subrange(start as int, i + 1) =~= cur.push(clean@[i as int]));
                    assert(scan_phrases(pre, true, cur) == scan_phrases(
                        rest,
                        true,
                        cur.push(pre[0]),
                    ));
                }
            }
        }
        i = i + 1;
        proof {
            assert(rest =~= clean@.skip(i as int));
        }
    }
    proof {
        assert(clean@.skip(i as int) =~= Seq::<char>::empty());
        if inside {
            assert(scan_phrases(
                Seq::<char>::empty(),
                true,
                clean@.subrange(start as int, i as int),
            ) =~= Seq::<Seq<char>>::empty());
        }
        assert(out.deep_view() + Seq::<Seq<char>>::empty() =~= out.deep_view());
    }
    out
}

/// The negated terms of `raw`, markers stripped, as strings.
fn extract_negated(raw: &Vec<char>) -> (out: Vec<String>)
    ensures
        out.deep_view() == scan_negated(raw@, Seq::empty()),
{
    let mut out: Vec<String> = Vec::new();
    let mut i: usize = 0;
    // The token gathered so far is raw[start .. i].
    let mut start: usize = 0;
    proof {
        assert(raw@.skip(0) =~= raw@);
        assert(raw@.subrange(0, 0) =~= Seq::<char>::empty());
    }
    while i < raw.len()
        invariant
            0 <= start <= i <= raw@.len(),
            scan_negated(raw@, Seq::empty()) =~= out.deep_view() + scan_negated(
                raw@.skip(i as int),
                raw@.subrange(start as int, i as int),
            ),
        decreases raw@.len() - i,
    {
        let ghost pre = raw@.skip(i as int);
        let ghost cur = raw@.subrange(start as int, i as int);
        assert(pre[0] == raw@[i as int]);
        let ghost rest = pre.skip(1);
        let ghost old_out = out.deep_view();
        let c = raw[i];
        if char_is_space(c) {
            if start < i && raw[start] == '-' {
                let term = string_from_range(raw, start + 1, i);
                out.push(term);
                proof {
                    assert(cur[0] == '-');
                    assert(cur.skip(1) =~= raw@.subrange(start + 1, i as int));
                    assert(out.deep_view() =~= old_out.push(cur.skip(1)));
                    assert(old_out.push(cur.skip(1)) =~= old_out + seq![cur.skip(1)]);
                    assert(scan_negated(pre, cur) == seq![cur.skip(1)] + scan_negated(
                        rest,
                        Seq::empty(),
                    ));
                    assert((old_out + seq![cur.skip(1)]) + scan_negated(rest, Seq::empty())
                        =~= old_out + (seq![cur.skip(1)] + scan_negated(rest, Seq::empty())));
                }
            } else {
                proof {
                    assert(!is_neg_token(cur)) by {
                        if start < i {
                            assert(cur[0] == raw@[start as int]);
                        }
                    }
                    assert(scan_negated(pre, cur) == Seq::<Seq<char>>::empty() + scan_negated(
                        rest,
                        Seq::empty(),
                    ));
                    assert(Seq::<Seq<char>>::empty() + scan_negated(rest, Seq::empty())
                        =~= scan_negated(rest, Seq::empty()));
                }
            }
            start = i + 1;
            proof {
                assert(raw@.subrange(start as int, start as int) =~= Seq::<char>::empty());
            }
        } else {
            proof {
                assert(raw@.subrange(start as int, i + 1) =~= cur.push(raw@[i as int]));
                assert(scan_negated(pre, cur) == scan_negated(rest, cur.push(pre[0])));
            }
        }
        i = i + 1;
        proof {
            assert(rest =~= raw@.skip(i as int));
        }
    }
    let ghost cur = raw@.subrange(start as int, i as int);
    proof {
        assert(raw@.skip(i as int) =~= Seq::<char>::empty());
    }
    if start < i && raw[start] == '-' {
        let term = string_from_range(raw, start + 1, i);
        let ghost old_out = out.deep_view();
        out.push(term);
        proof {
            assert(cur[0] == '-');
            assert(cur.skip(1) =~= raw@.subrange(start + 1, i as int));
            assert(out.deep_view() =~= old_out.push(cur.skip(1)));
            assert(old_out.push(cur.skip(1)) =~= old_out + seq![cur.skip(1)]);
            assert(scan_negated(Seq::<char>::empty(), cur) == seq![cur.skip(1)]);
            assert(old_out + seq![cur.skip(1)] =~= out.deep_view());
        }
    } else {
        proof {
            assert(!is_neg_token(cur)) by {
                if start < i {
                    assert(cur[0] == raw@[start as int]);
                }
            }
            assert(scan_negated(Seq::<char>::empty(), cur) == Seq::<Seq<char>>::empty());
            assert(out.deep_view() + Seq::<Seq<char>>::empty() =~= out.deep_view());
        }
    }
    out
}

/// Parses a raw query: total, pure, never fails. The raw text is kept; the
/// quoted phrases (after backslash stripping) and negated terms come back as
/// absent when their lists are empty.
pub fn parse_query(query: String) -> (r: ParsedQuery)
    ensures
        r.query@ == query@,
        match r.quote_words {
            Some(v) => v.deep_view() == phrases_of(query@) && phrases_of(query@).len() > 0,
            None => phrases_of(query@).len() == 0,
        },
        match r.negated_words {
            Some(v) => v.deep_view() == negated_of(query@) && negated_of(query@).len() > 0,
            None => negated_of(query@).len() == 0,
        },
{
    let raw = chars_vec(query.as_str());
    let clean = strip_slashes_vec(&raw);
    let phrases = extract_phrases(&clean);
    let negated = extract_negated(&raw);
    let quote_words = if phrases.len() == 0 {
        None
    } else {
        Some(phrases)
    };
    let negated_words = if negated.len() == 0 {
        None
    } else {
        Some(negated)
    };
    ParsedQuery { query, quote_words, negated_words }
}

} // verus!
