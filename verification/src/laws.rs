//! The discovery-scope laws: what the two scope expressions mean, that the
//! local scope admits only local transports, and that a global sweep covers
//! everything a local sweep finds.

use vstd::prelude::*;
use crate::expr::{expr_matches, expr_valid};
use crate::resource_manager::{scope_expression, Scope};
use crate::transport::TransportModel;

verus! {

/// Whether `c` has a role in the expression language.
pub open spec fn is_special(c: char) -> bool {
    c == '*' || c == '?' || c == '(' || c == ')' || c == '|'
}

/// A pattern fragment of literal characters only.
pub open spec fn plain_text(p: Seq<char>) -> bool {
    forall|i: int| 0 <= i < p.len() ==> !is_special(#[trigger] p[i])
}

/// A fragment free of group syntax (wildcards allowed).
pub open spec fn no_group_chars(p: Seq<char>) -> bool {
    forall|i: int|
        0 <= i < p.len() ==> (#[trigger] p[i]) != '(' && p[i] != ')' && p[i] != '|'
}

/// A literal fragment at the head of a pattern matches exactly itself.
pub proof fn lemma_matches_literal_prefix(lit: Seq<char>, rest: Seq<char>, s: Seq<char>)
    requires
        plain_text(lit),
    ensures
        expr_matches(lit + rest, s) <==> (s.len() >= lit.len() && s.take(lit.len() as int) == lit
            && expr_matches(rest, s.skip(lit.len() as int))),
    decreases lit.len(),
{
    if lit.len() == 0 {
        assert(lit + rest =~= rest);
        assert(s.take(0) =~= lit);
        assert(s.skip(0) =~= s);
    } else {
        let p = lit + rest;
        assert(p[0] == lit[0]);
        assert(!is_special(lit[0]));
        assert(p.skip(1) =~= lit.skip(1) + rest);
        assert(forall|i: int| 0 <= i < lit.skip(1).len() ==> #[trigger] lit.skip(1)[i] == lit[i
            + 1]);
        assert(plain_text(lit.skip(1)));
        lemma_matches_literal_prefix(lit.skip(1), rest, s.skip(1));
        if s.len() > 0 && s[0] == lit[0] {
            let s1 = s.skip(1);
            if s.len() >= lit.len() {
                assert(s1.skip(lit.len() - 1) =~= s.skip(lit.len() as int));
                if s1.take(lit.len() - 1) == lit.skip(1) {
                    assert forall|k: int|
                        0 <= k < lit.len() implies s.take(lit.len() as int)[k] == lit[k] by {
                        if k > 0 {
                            assert(s1.take(lit.len() - 1)[k - 1] == lit.skip(1)[k - 1]);
                            assert(s1[k - 1] == s[k]);
                        }
                    }
                    assert(s.take(lit.len() as int) =~= lit);
                }
                if s.take(lit.len() as int) == lit {
                    assert(s1.take(lit.len() - 1) =~= lit.skip(1));
                }
            }
        } else {
            if s.len() >= lit.len() && s.take(lit.len() as int) == lit {
                assert(s.take(lit.len() as int)[0] == s[0]);
                assert(false);
            }
        }
    }
}

/// A literal pattern matches exactly itself.
pub proof fn lemma_matches_literal(lit: Seq<char>, s: Seq<char>)
    requires
        plain_text(lit),
    ensures
        expr_matches(lit, s) <==> s == lit,
{
    lemma_matches_literal_prefix(lit, Seq::empty(), s);
    assert(lit + Seq::<char>::empty() =~= lit);
    if s.len() >= lit.len() && s.take(lit.len() as int) == lit && s.skip(lit.len() as int).len()
        == 0 {
        assert(s =~= lit);
    }
    if s == lit {
        assert(s.take(lit.len() as int) =~= lit);
        assert(s.skip(lit.len() as int).len() == 0);
    }
}

/// A star followed by a literal tail matches exactly the strings ending in
/// that tail.
pub proof fn lemma_matches_star_literal(lit: Seq<char>, s: Seq<char>)
    requires
        plain_text(lit),
    ensures
        expr_matches(seq!['*'] + lit, s) <==> (s.len() >= lit.len() && s.skip(
            s.len() - lit.len(),
        ) == lit),
    decreases s.len(),
{
    let p = seq!['*'] + lit;
    assert(p[0] == '*');
    assert(p.skip(1) =~= lit);
    lemma_matches_literal(lit, s);
    if s.len() > 0 {
        lemma_matches_star_literal(lit, s.skip(1));
        if s.len() - 1 >= lit.len() {
            assert(s.skip(1).skip(s.len() - 1 - lit.len()) =~= s.skip(s.len() - lit.len()));
        }
    }
    if s.len() >= lit.len() && s.skip(s.len() - lit.len()) == lit {
        if s.len() == lit.len() {
            assert(s.skip(0) =~= s);
            assert(expr_matches(lit, s));
        } else {
            assert(s.len() > 0);
            assert(s.skip(1).skip(s.len() - 1 - lit.len()) =~= s.skip(s.len() - lit.len()));
            assert(expr_matches(p, s.skip(1)));
        }
    }
    if expr_matches(p, s) {
        if expr_matches(lit, s) {
            assert(s == lit);
            assert(s.skip(0) =~= s);
        }
    }
}

/// One mandatory character, a star, and a literal tail: everything longer
/// than the tail that ends in the tail.
pub proof fn lemma_matches_wild_star_literal(lit: Seq<char>, s: Seq<char>)
    requires
        plain_text(lit),
    ensures
        expr_matches(seq!['?', '*'] + lit, s) <==> (s.len() > lit.len() && s.skip(
            s.len() - lit.len(),
        ) == lit),
{
    let p = seq!['?', '*'] + lit;
    assert(p[0] == '?');
    assert(p.skip(1) =~= seq!['*'] + lit);
    if s.len() > 0 {
        lemma_matches_star_literal(lit, s.skip(1));
        if s.len() - 1 >= lit.len() {
            assert(s.skip(1).skip(s.len() - 1 - lit.len()) =~= s.skip(s.len() - lit.len()));
        }
    }
}

/// A fragment without group syntax is a well-formed expression.
pub proof fn lemma_valid_plain(p: Seq<char>)
    requires
        no_group_chars(p),
    ensures
        expr_valid(p),
    decreases p.len(),
{
    if p.len() > 0 {
        assert(forall|i: int| 0 <= i < p.skip(1).len() ==> #[trigger] p.skip(1)[i] == p[i + 1]);
        lemma_valid_plain(p.skip(1));
    }
}

/// A single group in front of a well-formed remainder is well-formed.
pub proof fn lemma_valid_group(content: Seq<char>, rest: Seq<char>)
    requires
        no_group_chars_but_bar(content),
        expr_valid(rest),
    ensures
        expr_valid(seq!['('] + content + seq![')'] + rest),
{
    let p = seq!['('] + content + seq![')'] + rest;
    let j: int = content.len() as int + 1;
    assert(p[0] == '(');
    assert(p[j] == ')');
    assert(forall|k: int| 0 <= k < j ==> #[trigger] p[k] != ')');
    crate::text::lemma_first_index_of_witness(p, ')', j);
    assert(p.subrange(1, j) =~= content);
    crate::text::lemma_first_index_of_absent(p.subrange(1, j), '(');
    assert(p.skip(j + 1) =~= rest);
}

/// A fragment free of parentheses (alternation bars allowed).
pub open spec fn no_group_chars_but_bar(p: Seq<char>) -> bool {
    forall|i: int| 0 <= i < p.len() ==> (#[trigger] p[i]) != '(' && p[i] != ')'
}

/// Matching a group with at least two alternatives: the first alternative
/// followed by the remainder matches, or the group without it does.
pub proof fn lemma_matches_group_cons(
    alt: Seq<char>,
    others: Seq<char>,
    rest: Seq<char>,
    s: Seq<char>,
)
    requires
        no_group_chars(alt),
        no_group_chars_but_bar(others),
    ensures
        expr_matches(seq!['('] + alt + seq!['|'] + others + seq![')'] + rest, s) <==> (
        expr_matches(alt + rest, s) || expr_matches(seq!['('] + others + seq![')'] + rest, s)),
{
    let p = seq!['('] + alt + seq!['|'] + others + seq![')'] + rest;
    let j: int = alt.len() as int + others.len() as int + 2;
    assert(p[0] == '(');
    assert(p[j] == ')');
    assert(forall|k: int| 0 <= k < j ==> #[trigger] p[k] != ')');
    crate::text::lemma_first_index_of_witness(p, ')', j);
    let content = p.subrange(1, j);
    assert(content =~= alt + seq!['|'] + others);
    assert(content[alt.len() as int] == '|');
    assert(forall|k: int| 0 <= k < alt.len() ==> #[trigger] content[k] != '|');
    crate::text::lemma_first_index_of_witness(content, '|', alt.len() as int);
    assert(content.take(alt.len() as int) =~= alt);
    assert(p.skip(j + 1) =~= rest);
    assert(content.take(alt.len() as int) + p.skip(j + 1) =~= alt + rest);
    assert(seq!['('] + content.skip(alt.len() as int + 1) + seq![')'] + p.skip(j + 1) =~= seq!['(']
        + others + seq![')'] + rest);
}

/// Matching a group with one alternative left: the group brackets fall away.
pub proof fn lemma_matches_group_single(alt: Seq<char>, rest: Seq<char>, s: Seq<char>)
    requires
        no_group_chars(alt),
    ensures
        expr_matches(seq!['('] + alt + seq![')'] + rest, s) <==> expr_matches(alt + rest, s),
{
    let p = seq!['('] + alt + seq![')'] + rest;
    let j: int = alt.len() as int + 1;
    assert(p[0] == '(');
    assert(p[j] == ')');
    assert(forall|k: int| 0 <= k < j ==> #[trigger] p[k] != ')');
    crate::text::lemma_first_index_of_witness(p, ')', j);
    let content = p.subrange(1, j);
    assert(content =~= alt);
    crate::text::lemma_first_index_of_absent(content, '|');
    assert(p.skip(j + 1) =~= rest);
    assert(content + p.skip(j + 1) =~= alt + rest);
}


/// The last characters of a suffix are the last characters of the whole.
proof fn lemma_suffix_within_skip(s: Seq<char>, k: int, m: int)
    requires
        0 <= k,
        0 <= m,
        k + m <= s.len(),
    ensures
        s.skip(k).skip(s.len() - k - m) =~= s.skip(s.len() - m),
{
}

/// Whether `s` ends with the instrument-class suffix.
pub open spec fn ends_with_instr(s: Seq<char>) -> bool {
    s.len() >= 5 && s.skip(s.len() - 5) == "INSTR"@
}

/// What the global scope expression means: at least one character, then
/// anything, then the instrument-class suffix.
pub proof fn lemma_scope_global_meaning(s: Seq<char>)
    ensures
        expr_matches(scope_expression(Scope::Global), s) <==> (s.len() > 5 && ends_with_instr(s)),
{
    reveal_strlit("?*INSTR");
    reveal_strlit("INSTR");
    let g = scope_expression(Scope::Global);
    assert(g =~= seq!['?', '*'] + "INSTR"@);
    assert(plain_text("INSTR"@));
    lemma_matches_wild_star_literal("INSTR"@, s);
}

/// One transport-prefix alternative: a plain prefix, one mandatory
/// character, anything, and the instrument-class suffix.
proof fn lemma_prefix_alternative_meaning(lit: Seq<char>, s: Seq<char>)
    requires
        plain_text(lit),
    ensures
        expr_matches(lit + "?*INSTR"@, s) <==> (s.len() > lit.len() + 5 && s.take(
            lit.len() as int,
        ) == lit && ends_with_instr(s)),
{
    reveal_strlit("?*INSTR");
    reveal_strlit("INSTR");
    lemma_matches_literal_prefix(lit, "?*INSTR"@, s);
    assert("?*INSTR"@ =~= seq!['?', '*'] + "INSTR"@);
    assert(plain_text("INSTR"@));
    if s.len() >= lit.len() {
        let rem = s.skip(lit.len() as int);
        lemma_matches_wild_star_literal("INSTR"@, rem);
        if rem.len() >= 5 {
            lemma_suffix_within_skip(s, lit.len() as int, 5);
        }
    }
}

/// Which strings the local scope expression admits, alternative by
/// alternative.
pub open spec fn local_scope_shape(s: Seq<char>) -> bool {
    ||| (s.len() > 8 && s.take(3) == "USB"@ && ends_with_instr(s))
    ||| (s.len() > 9 && s.take(4) == "GPIB"@ && ends_with_instr(s))
    ||| (s.len() > 8 && s.take(3) == "VXI"@ && ends_with_instr(s))
    ||| (s.len() > 9 && s.take(4) == "ASRL"@ && ends_with_instr(s))
    ||| (s.len() > 20 && s.take(5) == "TCPIP"@ && s.subrange(6, 15) == "::169.254"@
        && ends_with_instr(s))
}

/// What the local scope expression means: one of the local transport
/// prefixes — USB, GPIB, VXI, serial, or link-local TCP — and the
/// instrument-class suffix.
pub proof fn lemma_scope_local_meaning(s: Seq<char>)
    ensures
        expr_matches(scope_expression(Scope::Local), s) <==> local_scope_shape(s),
{
    reveal_strlit("(USB|GPIB|VXI|ASRL|TCPIP?::169.254)?*INSTR");
    reveal_strlit("?*INSTR");
    reveal_strlit("INSTR");
    reveal_strlit("USB");
    reveal_strlit("GPIB");
    reveal_strlit("VXI");
    reveal_strlit("ASRL");
    reveal_strlit("TCPIP");
    reveal_strlit("::169.254");
    let q = "?*INSTR"@;
    let usb = "USB"@;
    let gpib = "GPIB"@;
    let vxi = "VXI"@;
    let asrl = "ASRL"@;
    let tcpip = "TCPIP"@;
    let link = "::169.254"@;
    let tcp_alt = tcpip + seq!['?'] + link;
    let o4 = tcp_alt;
    let o3 = asrl + seq!['|'] + o4;
    let o2 = vxi + seq!['|'] + o3;
    let o1 = gpib + seq!['|'] + o2;
    let local = scope_expression(Scope::Local);
    assert(local =~= seq!['('] + usb + seq!['|'] + o1 + seq![')'] + q);
    assert(plain_text(usb) && plain_text(gpib) && plain_text(vxi) && plain_text(asrl)
        && plain_text(tcpip) && plain_text(link));
    assert(no_group_chars(usb) && no_group_chars(gpib) && no_group_chars(vxi) && no_group_chars(
        asrl,
    ));
    assert(no_group_chars(tcp_alt));
    assert(no_group_chars_but_bar(o1) && no_group_chars_but_bar(o2) && no_group_chars_but_bar(o3)
        && no_group_chars_but_bar(o4));

    lemma_matches_group_cons(usb, o1, q, s);
    assert(seq!['('] + o1 + seq![')'] + q =~= seq!['('] + gpib + seq!['|'] + o2 + seq![')'] + q);
    lemma_matches_group_cons(gpib, o2, q, s);
    assert(seq!['('] + o2 + seq![')'] + q =~= seq!['('] + vxi + seq!['|'] + o3 + seq![')'] + q);
    lemma_matches_group_cons(vxi, o3, q, s);
    assert(seq!['('] + o3 + seq![')'] + q =~= seq!['('] + asrl + seq!['|'] + o4 + seq![')'] + q);
    lemma_matches_group_cons(asrl, o4, q, s);
    lemma_matches_group_single(tcp_alt, q, s);

    lemma_prefix_alternative_meaning(usb, s);
    lemma_prefix_alternative_meaning(gpib, s);
    lemma_prefix_alternative_meaning(vxi, s);
    lemma_prefix_alternative_meaning(asrl, s);

    // The link-local alternative: the TCPIP prefix, one interface character,
    // the link-local address prefix, and the usual remainder.
    lemma_matches_literal_prefix(tcpip, seq!['?'] + link + q, s);
    assert(tcp_alt + q =~= tcpip + (seq!['?'] + link + q));
    if s.len() >= 5 {
        let s5 = s.skip(5);
        let p5 = seq!['?'] + link + q;
        assert(p5[0] == '?');
        assert(p5.skip(1) =~= link + q);
        if s5.len() > 0 {
            let s6 = s5.skip(1);
            assert(s6 =~= s.skip(6));
            lemma_matches_literal_prefix(link, q, s6);
            if s6.len() >= 9 {
                assert(s6.take(9) =~= s.subrange(6, 15));
                let s15 = s6.skip(9);
                assert(s15 =~= s.skip(15));
                assert(q =~= seq!['?', '*'] + "INSTR"@);
                lemma_matches_wild_star_literal("INSTR"@, s15);
                if s15.len() >= 5 {
                    lemma_suffix_within_skip(s, 15, 5);
                }
            }
        }
    }
}

/// Scope filtering, first half: every identifier the local scope admits
/// whose first character could begin a TCP identifier is link-local — it
/// carries the TCPIP prefix and the link-local address prefix.
pub proof fn lemma_scope_local_is_link_local(s: Seq<char>)
    ensures
        expr_matches(scope_expression(Scope::Local), s) && s.len() > 0 && s[0] == 'T' ==> (s.len()
            > 20 && s.take(5) == "TCPIP"@ && s.subrange(6, 15) == "::169.254"@),
{
    lemma_scope_local_meaning(s);
    reveal_strlit("USB");
    reveal_strlit("GPIB");
    reveal_strlit("VXI");
    reveal_strlit("ASRL");
    if expr_matches(scope_expression(Scope::Local), s) && s.len() > 0 && s[0] == 'T' {
        if s.len() > 8 && s.take(3) == "USB"@ {
            assert(s.take(3)[0] == s[0]);
            assert(false);
        }
        if s.len() > 9 && s.take(4) == "GPIB"@ {
            assert(s.take(4)[0] == s[0]);
            assert(false);
        }
        if s.len() > 8 && s.take(3) == "VXI"@ {
            assert(s.take(3)[0] == s[0]);
            assert(false);
        }
        if s.len() > 9 && s.take(4) == "ASRL"@ {
            assert(s.take(4)[0] == s[0]);
            assert(false);
        }
    }
}

/// Scope filtering, second half: whatever the local scope admits, the global
/// scope admits.
pub proof fn lemma_scope_local_subset_of_global(s: Seq<char>)
    ensures
        expr_matches(scope_expression(Scope::Local), s) ==> expr_matches(
            scope_expression(Scope::Global),
            s,
        ),
{
    lemma_scope_local_meaning(s);
    lemma_scope_global_meaning(s);
}

/// A global discovery sweep covers everything a local sweep finds, whatever
/// the transport's listing holds.
pub proof fn lemma_scoped_discovery_superset(m: TransportModel)
    ensures
        forall|j: int|
            0 <= j < m.matching_resources(scope_expression(Scope::Local)).len()
                ==> m.matching_resources(scope_expression(Scope::Global)).contains(
                #[trigger] m.matching_resources(scope_expression(Scope::Local))[j],
            ),
{
    let e_local = scope_expression(Scope::Local);
    let e_global = scope_expression(Scope::Global);
    let locals = m.matching_resources(e_local);
    assert forall|j: int|
        0 <= j < locals.len() implies m.matching_resources(e_global).contains(
        #[trigger] locals[j],
    ) by {
        broadcast use vstd::seq_lib::group_filter_ensures;

        let x = locals[j];
        m.resource_names.lemma_filter_pred(|n: Seq<char>| expr_matches(e_local, n), j);
        crate::text::lemma_filter_subset(
            m.resource_names,
            |n: Seq<char>| expr_matches(e_local, n),
            j,
        );
        let k = choose|k: int| 0 <= k < m.resource_names.len() && m.resource_names[k] == x;
        lemma_scope_local_subset_of_global(x);
        m.resource_names.lemma_filter_contains(|n: Seq<char>| expr_matches(e_global, n), k);
    }
}

/// Both scope expressions are well-formed, so a scoped discovery sweep is
/// never rejected for its expression.
pub proof fn lemma_scope_expressions_valid()
    ensures
        expr_valid(scope_expression(Scope::Global)),
        expr_valid(scope_expression(Scope::Local)),
{
    reveal_strlit("(USB|GPIB|VXI|ASRL|TCPIP?::169.254)?*INSTR");
    reveal_strlit("?*INSTR");
    let q = "?*INSTR"@;
    assert(no_group_chars(q));
    lemma_valid_plain(q);
    let local = scope_expression(Scope::Local);
    let content = local.subrange(1, 34);
    assert(local =~= seq!['('] + content + seq![')'] + q);
    assert(no_group_chars_but_bar(content));
    lemma_valid_group(content, q);
}


/// Cache identity: when an open hits a cached entry whose instrument still
/// answers its identification query, the very session already cached is
/// handed back — same handle — and the session roster is untouched: no
/// native session is opened or closed.
pub proof fn lemma_open_cache_identity(
    root: crate::session::ViSession,
    m0: TransportModel,
    c0: Seq<(Seq<char>, crate::instrument::InstrumentView)>,
    resource: Seq<char>,
    mode: crate::mode::AccessMode,
    rv: Result<crate::instrument::InstrumentView, crate::error::Error>,
    m1: TransportModel,
    c1: Seq<(Seq<char>, crate::instrument::InstrumentView)>,
)
    requires
        crate::resource_manager::open_post(root, m0, c0, resource, mode, rv, m1, c1),
        crate::resource_manager::cache_index(c0, resource) is Some,
        crate::scpi::idn_refresh_ok(m0, cached_handle(c0, resource)),
    ensures
        rv matches Ok(iv) && iv.handle == cached_handle(c0, resource),
        m1.sessions.dom() == m0.sessions.dom(),
{
    let i = crate::resource_manager::cache_index(c0, resource)->0;
    let h0 = c0[i].1.handle;
    crate::resource_manager::lemma_cache_index(c0, resource);
    crate::transport::lemma_write_effect_frame(m0, h0, crate::transport::idn_query_bytes());
    crate::transport::lemma_read_effect_frame(
        m0.write_effect(h0, crate::transport::idn_query_bytes()),
        h0,
    );
    assert(m1.sessions.dom() =~= m0.sessions.dom());
}

/// The handle of the entry cached under `resource`.
pub open spec fn cached_handle(
    c: Seq<(Seq<char>, crate::instrument::InstrumentView)>,
    resource: Seq<char>,
) -> crate::session::ViSession {
    c[crate::resource_manager::cache_index(c, resource)->0].1.handle
}

/// Lock round trip: taking the exclusive lock and releasing it returns the
/// transport to exactly the state it started in, and in particular the
/// resource to `Unlocked`.
pub proof fn lemma_lock_round_trip(
    m0: TransportModel,
    h: crate::session::ViSession,
    mode: crate::mode::AccessMode,
    m1: TransportModel,
    r2: Result<crate::error::Status, crate::error::VisaError>,
    m2: TransportModel,
)
    requires
        m0.sessions.dom().contains(h),
        m0.resources.dom().contains(m0.sessions[h].resource),
        crate::mode::spec_has_exclusive_lock(mode),
        !crate::mode::spec_has_shared_lock(mode),
        crate::transport::lock_post(m0, h, mode, None, Ok(None), m1),
        crate::transport::unlock_post(m1, h, r2, m2),
    ensures
        r2 == Ok::<crate::error::Status, crate::error::VisaError>(
            crate::error::Status::OperationCompleted,
        ),
        m2.resources[m0.sessions[h].resource].lock is Unlocked,
        m2 == m0,
{
    let res = m0.sessions[h].resource;
    assert(m0.resources[res].lock is Unlocked);
    assert(m1 == m0.with_lock(res, crate::transport::LockModel::Exclusive(h)));
    assert(m1.sessions == m0.sessions);
    assert(m1.resources[res].lock == crate::transport::LockModel::Exclusive(h));
    assert(m2 == m1.with_lock(res, crate::transport::LockModel::Unlocked));
    assert(m2.resources =~~= m0.resources);
    assert(m2 =~~= m0);
}

/// Releasing a lock the session does not hold is told so, and changes
/// nothing.
pub proof fn lemma_unlock_while_unlocked(
    m0: TransportModel,
    h: crate::session::ViSession,
    r: Result<crate::error::Status, crate::error::VisaError>,
    m1: TransportModel,
)
    requires
        m0.sessions.dom().contains(h),
        m0.resources[m0.sessions[h].resource].lock is Unlocked,
        crate::transport::unlock_post(m0, h, r, m1),
    ensures
        r == Err::<crate::error::Status, crate::error::VisaError>(
            crate::error::VisaError::SessionNotLocked,
        ),
        m1 == m0,
{
}

/// Shared-lock key join: once one session holds the shared lock under key
/// `k`, a second session of the same resource presenting `k` always joins,
/// and one presenting any other key is refused with an invalid-access-key
/// error, leaving the lock as it was.
pub proof fn lemma_shared_lock_key_join(
    m0: TransportModel,
    h1: crate::session::ViSession,
    h2: crate::session::ViSession,
    mode: crate::mode::AccessMode,
    k: Seq<char>,
    presented: Seq<char>,
    r2: Result<Option<String>, crate::error::VisaError>,
    m1: TransportModel,
    m2: TransportModel,
)
    requires
        m0.sessions.dom().contains(h1),
        m0.sessions.dom().contains(h2),
        m0.sessions[h2].resource == m0.sessions[h1].resource,
        m0.resources[m0.sessions[h1].resource].lock == crate::transport::LockModel::Shared(
            k,
            set![h1],
        ),
        crate::mode::spec_has_shared_lock(mode),
        crate::transport::lock_post(m0, h2, mode, Some(presented), r2, m1),
        m2 == m1,
    ensures
        presented == k ==> ({
            let res = m0.sessions[h1].resource;
            (r2 matches Ok(Some(k2)) && k2@ == k) && m1.resources[res].lock
                == crate::transport::LockModel::Shared(k, set![h1].insert(h2))
        }),
        presented != k ==> r2 == Err::<Option<String>, crate::error::VisaError>(
            crate::error::VisaError::InvalidAccessKey,
        ) && m1 == m0,
{
    let res = m0.sessions[h1].resource;
    if presented == k {
        assert(m1 == m0.with_lock(
            res,
            crate::transport::LockModel::Shared(k, set![h1].insert(h2)),
        ));
    }
}


/// Eviction on death: when an open hits a cached entry whose instrument no
/// longer answers its identification query, the stale session is closed
/// before anything else happens, and any instrument handed back afterwards
/// sits on a session opened fresh after that closing — never the dead handle
/// itself.
pub proof fn lemma_open_evicts_dead_cached_session(
    root: crate::session::ViSession,
    m0: TransportModel,
    c0: Seq<(Seq<char>, crate::instrument::InstrumentView)>,
    resource: Seq<char>,
    mode: crate::mode::AccessMode,
    rv: Result<crate::instrument::InstrumentView, crate::error::Error>,
    m1: TransportModel,
    c1: Seq<(Seq<char>, crate::instrument::InstrumentView)>,
)
    requires
        crate::resource_manager::open_post(root, m0, c0, resource, mode, rv, m1, c1),
        crate::resource_manager::cache_index(c0, resource) is Some,
        !crate::scpi::idn_refresh_ok(m0, cached_handle(c0, resource)),
    ensures
        !crate::resource_manager::refresh_close_model(
            m0,
            cached_handle(c0, resource),
        ).sessions.dom().contains(cached_handle(c0, resource)),
        rv matches Ok(iv) ==> !crate::resource_manager::refresh_close_model(
            m0,
            cached_handle(c0, resource),
        ).is_live(iv.handle),
{
    let h0 = cached_handle(c0, resource);
    let m_e = crate::resource_manager::refresh_close_model(m0, h0);
    let m_x = if crate::scpi::idn_io_allowed(m0, h0) {
        crate::scpi::idn_exchange_model(m0, h0)
    } else {
        m0
    };
    if m_x.sessions.dom().contains(h0) {
        assert(m_e.sessions == m_x.sessions.remove_keys(set![h0]));
        assert(!m_e.sessions.dom().contains(h0));
    } else if m_x.managers.contains(h0) {
        assert(!m_e.sessions.dom().contains(h0)) by {
            assert(m_e.sessions == m_x.sessions.remove_keys(m_x.children_of(h0)));
        }
    } else if m_x.find_lists.dom().contains(h0) {
    } else {
    }
}


/// A transport-generated shared-lock access key never holds an interior NUL,
/// so a cooperating session can always present it: the key-presenting lock
/// calls reject NUL-bearing keys before anything is sent, and this guarantees
/// that rejection never hits a generated key.
pub proof fn lemma_generated_key_is_presentable(
    m0: TransportModel,
    h: crate::session::ViSession,
    mode: crate::mode::AccessMode,
    k: String,
    m1: TransportModel,
)
    requires
        m0.sessions.dom().contains(h),
        crate::mode::spec_has_shared_lock(mode),
        crate::transport::lock_post(m0, h, mode, None, Ok(Some(k)), m1),
        m0.resources[m0.sessions[h].resource].lock is Unlocked,
    ensures
        !k@.contains('\u{0}'),
{
}

} // verus!
