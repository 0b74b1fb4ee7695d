//! The resource-expression language used by discovery: literal characters,
//! `?` matching exactly one character, `*` matching any run of characters,
//! and one level of alternation groups such as `(USB|GPIB)`.
//!
//! `expr_matches` is the meaning of an expression; the executable matcher and
//! validity checker are proved against it.

use vstd::prelude::*;
use vstd::string::StrSliceExecFns;
use vstd::string::StringExecFns;
use crate::text::{find_char, first_index_of, lemma_first_index_of};

verus! {

/// Whether pattern `p` matches the whole of `s`.
///
/// An alternation group matches when one of its alternatives, followed by the
/// remainder of the pattern, matches; this is expressed by trying the first
/// alternative and otherwise re-forming the group without it.
pub open spec fn expr_matches(p: Seq<char>, s: Seq<char>) -> bool
    decreases p.len(), s.len(),
    via expr_matches_decreases
{
    if p.len() == 0 {
        s.len() == 0
    } else if p[0] == '*' {
        expr_matches(p.skip(1), s) || (s.len() > 0 && expr_matches(p, s.skip(1)))
    } else if p[0] == '?' {
        s.len() > 0 && expr_matches(p.skip(1), s.skip(1))
    } else if p[0] == '(' {
        match first_index_of(p, ')') {
            None => false,
            Some(j) => {
                let content = p.subrange(1, j);
                let rest = p.skip(j + 1);
                match first_index_of(content, '|') {
                    None => expr_matches(content + rest, s),
                    Some(i) => expr_matches(content.take(i) + rest, s) || expr_matches(
                        seq!['('] + content.skip(i + 1) + seq![')'] + rest,
                        s,
                    ),
                }
            },
        }
    } else {
        s.len() > 0 && s[0] == p[0] && expr_matches(p.skip(1), s.skip(1))
    }
}

#[via_fn]
proof fn expr_matches_decreases(p: Seq<char>, s: Seq<char>) {
    if p.len() > 0 && p[0] == '(' {
        lemma_first_index_of(p, ')');
        match first_index_of(p, ')') {
            None => {},
            Some(j) => {
                let content = p.subrange(1, j);
                lemma_first_index_of(content, '|');
            },
        }
    }
}

/// Whether `p` is a well-formed expression: every group is closed, groups do
/// not nest, and `)` and `|` appear only as group syntax.
pub open spec fn expr_valid(p: Seq<char>) -> bool
    decreases p.len(),
    via expr_valid_decreases
{
    if p.len() == 0 {
        true
    } else if p[0] == '(' {
        match first_index_of(p, ')') {
            None => false,
            Some(j) => first_index_of(p.subrange(1, j), '(') is None && expr_valid(p.skip(j + 1)),
        }
    } else if p[0] == ')' || p[0] == '|' {
        false
    } else {
        expr_valid(p.skip(1))
    }
}

#[via_fn]
proof fn expr_valid_decreases(p: Seq<char>) {
    if p.len() > 0 && p[0] == '(' {
        lemma_first_index_of(p, ')');
    }
}

/// Whether `pattern` matches the whole of `candidate`.
pub fn matches_expression(pattern: &str, candidate: &str) -> (r: bool)
    ensures
        r == expr_matches(pattern@, candidate@),
    decreases pattern@.len(), candidate@.len(),
{
    let np = pattern.unicode_len();
    let ns = candidate.unicode_len();
    if np == 0 {
        ns == 0
    } else {
        let c0 = pattern.get_char(0);
        if c0 == '*' {
            let p1 = pattern.substring_char(1, np);
            proof {
                assert(p1@ =~= pattern@.skip(1));
            }
            if matches_expression(p1, candidate) {
                true
            } else if ns > 0 {
                let s1 = candidate.substring_char(1, ns);
                proof {
                    assert(s1@ =~= candidate@.skip(1));
                }
                matches_expression(pattern, s1)
            } else {
                false
            }
        } else if c0 == '?' {
            if ns == 0 {
                false
            } else {
                let p1 = pattern.substring_char(1, np);
                let s1 = candidate.substring_char(1, ns);
                proof {
                    assert(p1@ =~= pattern@.skip(1));
                    assert(s1@ =~= candidate@.skip(1));
                }
                matches_expression(p1, s1)
            }
        } else if c0 == '(' {
            match find_char(pattern, ')') {
                None => false,
                Some(j) => {
                    proof {
                        lemma_first_index_of(pattern@, ')');
                    }
                    let content = pattern.substring_char(1, j);
                    let rest = pattern.substring_char(j + 1, np);
                    proof {
                        assert(content@ =~= pattern@.subrange(1, j as int));
                        assert(rest@ =~= pattern@.skip(j + 1));
                    }
                    match find_char(content, '|') {
                        None => {
                            let mut q = content.to_owned();
                            q.append(rest);
                            matches_expression(q.as_str(), candidate)
                        },
                        Some(i) => {
                            proof {
                                lemma_first_index_of(content@, '|');
                            }
                            let alt = content.substring_char(0, i);
                            proof {
                                assert(alt@ =~= content@.take(i as int));
                            }
                            let mut q1 = alt.to_owned();
                            q1.append(rest);
                            if matches_expression(q1.as_str(), candidate) {
                                true
                            } else {
                                let cn = content.unicode_len();
                                let tail = content.substring_char(i + 1, cn);
                                let mut q2 = String::from_str("(");
                                q2.append(tail);
                                q2.append(")");
                                q2.append(rest);
                                proof {
                                    reveal_strlit("(");
                                    reveal_strlit(")");
                                    assert(tail@ =~= content@.skip(i + 1));
                                    assert(q2@ =~= seq!['('] + content@.skip(i + 1) + seq![')']
                                        + rest@);
                                }
                                matches_expression(q2.as_str(), candidate)
                            }
                        },
                    }
                },
            }
        } else {
            if ns > 0 {
                if candidate.get_char(0) == c0 {
                    let p1 = pattern.substring_char(1, np);
                    let s1 = candidate.substring_char(1, ns);
                    proof {
                        assert(p1@ =~= pattern@.skip(1));
                        assert(s1@ =~= candidate@.skip(1));
                    }
                    matches_expression(p1, s1)
                } else {
                    false
                }
            } else {
                false
            }
        }
    }
}

/// Whether `pattern` is a well-formed expression.
pub fn check_expression(pattern: &str) -> (r: bool)
    ensures
        r == expr_valid(pattern@),
    decreases pattern@.len(),
{
    let np = pattern.unicode_len();
    if np == 0 {
        true
    } else {
        let c0 = pattern.get_char(0);
        if c0 == '(' {
            match find_char(pattern, ')') {
                None => false,
                Some(j) => {
                    proof {
                        lemma_first_index_of(pattern@, ')');
                    }
                    let content = pattern.substring_char(1, j);
                    proof {
                        assert(content@ =~= pattern@.subrange(1, j as int));
                    }
                    if find_char(content, '(').is_none() {
                        let rest = pattern.substring_char(j + 1, np);
                        proof {
                            assert(rest@ =~= pattern@.skip(j + 1));
                        }
                        check_expression(rest)
                    } else {
                        false
                    }
                },
            }
        } else if c0 == ')' || c0 == '|' {
            false
        } else {
            let p1 = pattern.substring_char(1, np);
            proof {
                assert(p1@ =~= pattern@.skip(1));
            }
            check_expression(p1)
        }
    }
}

} // verus!
