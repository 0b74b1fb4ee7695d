//! Small text and byte-sequence helpers shared by the parser, the matcher and
//! the I/O layer: first occurrence of an element, whitespace trimming, and the
//! line framing used by the read protocol.

use vstd::prelude::*;
use vstd::string::StrSliceExecFns;
use vstd::utf8::{decode_utf8, valid_utf8};

verus! {

/// The index of the first occurrence of `x` in `s`, if any.
pub open spec fn first_index_of<T>(s: Seq<T>, x: T) -> Option<int>
    decreases s.len(),
{
    if s.len() == 0 {
        None
    } else if s[0] == x {
        Some(0)
    } else {
        match first_index_of(s.skip(1), x) {
            Some(i) => Some(i + 1),
            None => None,
        }
    }
}

/// What `first_index_of` returns: the first occurrence, with nothing equal to
/// `x` before it.
pub proof fn lemma_first_index_of<T>(s: Seq<T>, x: T)
    ensures
        match first_index_of(s, x) {
            Some(i) => 0 <= i < s.len() && s[i] == x && (forall|j: int| 0 <= j < i ==> s[j] != x),
            None => forall|j: int| 0 <= j < s.len() ==> s[j] != x,
        },
    decreases s.len(),
{
    if s.len() == 0 {
    } else if s[0] == x {
    } else {
        lemma_first_index_of(s.skip(1), x);
        let t = s.skip(1);
        match first_index_of(t, x) {
            Some(i) => {
                assert(s[i + 1] == t[i]);
                assert forall|j: int| 0 <= j < i + 1 implies s[j] != x by {
                    if j > 0 {
                        assert(t[j - 1] == s[j]);
                    }
                }
            },
            None => {
                assert forall|j: int| 0 <= j < s.len() implies s[j] != x by {
                    if j > 0 {
                        assert(t[j - 1] == s[j]);
                    }
                }
            },
        }
    }
}

/// A witness at `i` with no earlier occurrence pins `first_index_of` down.
pub proof fn lemma_first_index_of_witness<T>(s: Seq<T>, x: T, i: int)
    requires
        0 <= i < s.len(),
        s[i] == x,
        forall|j: int| 0 <= j < i ==> s[j] != x,
    ensures
        first_index_of(s, x) == Some(i),
    decreases s.len(),
{
    if i == 0 {
    } else {
        assert(forall|j: int| 0 <= j < i - 1 ==> s.skip(1)[j] == s[j + 1]);
        lemma_first_index_of_witness(s.skip(1), x, i - 1);
    }
}

/// If nothing in `s` equals `x`, `first_index_of` finds nothing.
pub proof fn lemma_first_index_of_absent<T>(s: Seq<T>, x: T)
    requires
        forall|j: int| 0 <= j < s.len() ==> s[j] != x,
    ensures
        first_index_of(s, x) is None,
    decreases s.len(),
{
    if s.len() > 0 {
        assert(forall|j: int| 0 <= j < s.skip(1).len() ==> s.skip(1)[j] == s[j + 1]);
        lemma_first_index_of_absent(s.skip(1), x);
    }
}

/// The first occurrence of `c` among the characters of `s`.
pub fn find_char(s: &str, c: char) -> (r: Option<usize>)
    ensures
        match r {
            Some(i) => first_index_of(s@, c) == Some(i as int),
            None => first_index_of(s@, c) is None,
        },
{
    let n = s.unicode_len();
    let mut i: usize = 0;
    while i < n
        invariant
            0 <= i <= n,
            n == s@.len(),
            forall|j: int| 0 <= j < i ==> s@[j] != c,
        decreases n - i,
    {
        if s.get_char(i) == c {
            proof {
                lemma_first_index_of_witness(s@, c, i as int);
            }
            return Some(i);
        }
        i = i + 1;
    }
    proof {
        lemma_first_index_of_absent(s@, c);
    }
    None
}

/// The first occurrence of `b` in a byte slice.
pub fn find_byte(s: &[u8], b: u8) -> (r: Option<usize>)
    ensures
        match r {
            Some(i) => first_index_of(s@, b) == Some(i as int),
            None => first_index_of(s@, b) is None,
        },
{
    let n = s.len();
    let mut i: usize = 0;
    while i < n
        invariant
            0 <= i <= n,
            n == s@.len(),
            forall|j: int| 0 <= j < i ==> s@[j] != b,
        decreases n - i,
    {
        if s[i] == b {
            proof {
                lemma_first_index_of_witness(s@, b, i as int);
            }
            return Some(i);
        }
        i = i + 1;
    }
    proof {
        lemma_first_index_of_absent(s@, b);
    }
    None
}

/// How the first occurrence in a concatenation relates to the parts: an
/// occurrence in `a` wins; otherwise one in `b` is offset by `a`'s length.
pub proof fn lemma_first_index_of_concat<T>(a: Seq<T>, b: Seq<T>, x: T)
    ensures
        first_index_of(a + b, x) == match first_index_of(a, x) {
            Some(i) => Some(i),
            None => match first_index_of(b, x) {
                Some(j) => Some(a.len() + j),
                None => None::<int>,
            },
        },
{
    lemma_first_index_of(a, x);
    lemma_first_index_of(b, x);
    match first_index_of(a, x) {
        Some(i) => {
            assert((a + b)[i] == a[i]);
            assert(forall|j: int| 0 <= j < i ==> (a + b)[j] == a[j]);
            lemma_first_index_of_witness(a + b, x, i);
        },
        None => {
            match first_index_of(b, x) {
                Some(j) => {
                    assert((a + b)[a.len() + j] == b[j]);
                    assert(forall|k: int|
                        0 <= k < a.len() + j ==> (a + b)[k] == (if k < a.len() {
                            a[k]
                        } else {
                            b[k - a.len()]
                        }));
                    lemma_first_index_of_witness(a + b, x, a.len() + j);
                },
                None => {
                    assert(forall|k: int|
                        0 <= k < (a + b).len() ==> (a + b)[k] == (if k < a.len() {
                            a[k]
                        } else {
                            b[k - a.len()]
                        }));
                    lemma_first_index_of_absent(a + b, x);
                },
            }
        },
    }
}

/// The whitespace characters removed when an identification field is
/// trimmed: the Unicode white-space set, as `char::is_whitespace` draws it.
pub open spec fn spec_is_space(c: char) -> bool {
    ||| c == ' '
    ||| c == '\t'
    ||| c == '\n'
    ||| c == '\u{b}'
    ||| c == '\u{c}'
    ||| c == '\r'
    ||| c == '\u{85}'
    ||| c == '\u{a0}'
    ||| c == '\u{1680}'
    ||| c == '\u{2000}'
    ||| c == '\u{2001}'
    ||| c == '\u{2002}'
    ||| c == '\u{2003}'
    ||| c == '\u{2004}'
    ||| c == '\u{2005}'
    ||| c == '\u{2006}'
    ||| c == '\u{2007}'
    ||| c == '\u{2008}'
    ||| c == '\u{2009}'
    ||| c == '\u{200a}'
    ||| c == '\u{2028}'
    ||| c == '\u{2029}'
    ||| c == '\u{202f}'
    ||| c == '\u{205f}'
    ||| c == '\u{3000}'
}

/// Whether `c` is trimmed whitespace.
pub fn is_space(c: char) -> (r: bool)
    ensures
        r == spec_is_space(c),
{
    c == ' ' || c == '\t' || c == '\n' || c == '\u{b}' || c == '\u{c}' || c == '\r' || c
        == '\u{85}' || c == '\u{a0}' || c == '\u{1680}' || c == '\u{2000}' || c == '\u{2001}'
        || c == '\u{2002}' || c == '\u{2003}' || c == '\u{2004}' || c == '\u{2005}' || c
        == '\u{2006}' || c == '\u{2007}' || c == '\u{2008}' || c == '\u{2009}' || c
        == '\u{200a}' || c == '\u{2028}' || c == '\u{2029}' || c == '\u{202f}' || c
        == '\u{205f}' || c == '\u{3000}'
}

/// `s` with leading whitespace removed.
pub open spec fn spec_trim_start(s: Seq<char>) -> Seq<char>
    decreases s.len(),
{
    if s.len() > 0 && spec_is_space(s[0]) {
        spec_trim_start(s.skip(1))
    } else {
        s
    }
}

/// `s` with trailing whitespace removed.
pub open spec fn spec_trim_end(s: Seq<char>) -> Seq<char>
    decreases s.len(),
{
    if s.len() > 0 && spec_is_space(s.last()) {
        spec_trim_end(s.drop_last())
    } else {
        s
    }
}

/// `s` with leading and trailing whitespace removed.
pub open spec fn spec_trim(s: Seq<char>) -> Seq<char> {
    spec_trim_end(spec_trim_start(s))
}

fn trim_start_str(s: &str) -> (r: &str)
    ensures
        r@ == spec_trim_start(s@),
    decreases s@.len(),
{
    let n = s.unicode_len();
    if n > 0 && is_space(s.get_char(0)) {
        let rest = s.substring_char(1, n);
        proof {
            assert(rest@ =~= s@.skip(1));
        }
        trim_start_str(rest)
    } else {
        s
    }
}

fn trim_end_str(s: &str) -> (r: &str)
    ensures
        r@ == spec_trim_end(s@),
    decreases s@.len(),
{
    let n = s.unicode_len();
    if n > 0 && is_space(s.get_char(n - 1)) {
        let rest = s.substring_char(0, n - 1);
        proof {
            assert(rest@ =~= s@.drop_last());
        }
        trim_end_str(rest)
    } else {
        s
    }
}

/// A copy of `s` with leading and trailing whitespace removed.
pub fn trim_to_string(s: &str) -> (r: String)
    ensures
        r@ == spec_trim(s@),
{
    trim_end_str(trim_start_str(s)).to_owned()
}

/// Every element of a filtered sequence occurs in the sequence it came from.
pub proof fn lemma_filter_subset<A>(s: Seq<A>, pred: spec_fn(A) -> bool, i: int)
    requires
        0 <= i < s.filter(pred).len(),
    ensures
        s.contains(s.filter(pred)[i]),
    decreases s.len(),
{
    reveal(Seq::filter);
    if s.len() > 0 {
        let rest = s.drop_last();
        let fr = rest.filter(pred);
        let f = s.filter(pred);
        if pred(s.last()) && i == f.len() - 1 {
            assert(f[i] == s.last());
            assert(s[s.len() - 1] == s.last());
        } else {
            assert(f[i] == fr[i]);
            lemma_filter_subset(rest, pred, i);
            let k = choose|k: int| 0 <= k < rest.len() && rest[k] == fr[i];
            assert(s[k] == rest[k]);
        }
    }
}

/// A filtered sequence of distinct elements stays distinct.
pub proof fn lemma_filter_distinct<A>(s: Seq<A>, pred: spec_fn(A) -> bool, a: int, b: int)
    requires
        forall|i: int, j: int| 0 <= i < j < s.len() ==> s[i] != s[j],
        0 <= a < b < s.filter(pred).len(),
    ensures
        s.filter(pred)[a] != s.filter(pred)[b],
    decreases s.len(),
{
    reveal(Seq::filter);
    if s.len() > 0 {
        let rest = s.drop_last();
        let fr = rest.filter(pred);
        let f = s.filter(pred);
        assert(forall|i: int, j: int| 0 <= i < j < rest.len() ==> rest[i] != rest[j]) by {
            assert(forall|i: int| 0 <= i < rest.len() ==> rest[i] == s[i]);
        }
        if pred(s.last()) {
            if b < fr.len() {
                assert(f[a] == fr[a] && f[b] == fr[b]);
                lemma_filter_distinct(rest, pred, a, b);
            } else {
                // The last filtered element is the sequence's last element;
                // everything before it came from the rest, which omits it.
                assert(f[b] == s.last());
                assert(f[a] == fr[a]);
                lemma_filter_subset(rest, pred, a);
                let k = choose|k: int| 0 <= k < rest.len() && rest[k] == fr[a];
                assert(s[k] == rest[k]);
                assert(s[k] != s[s.len() - 1]);
            }
        } else {
            assert(f == fr);
            lemma_filter_distinct(rest, pred, a, b);
        }
    }
}

/// The first line of `bytes`: everything up to and including the first
/// newline, or nothing if no newline has arrived yet.
pub open spec fn spec_first_line(bytes: Seq<u8>) -> Option<Seq<u8>> {
    match first_index_of(bytes, 10u8) {
        Some(i) => Some(bytes.take(i + 1)),
        None => None,
    }
}

/// Relies on `String::from_utf8`: it succeeds exactly on valid UTF-8 input
/// and decodes those bytes.
#[verifier::external_body]
pub fn bytes_to_string(v: Vec<u8>) -> (r: Option<String>)
    ensures
        (r is Some) == valid_utf8(v@),
        match r {
            Some(s) => s@ == decode_utf8(v@),
            None => true,
        },
{
    String::from_utf8(v).ok()
}

} // verus!
