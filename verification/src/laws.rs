//! General laws of template compilation.
//!
//! These proof functions state, once and for all inputs, what the
//! compilation pipeline guarantees: a string without placeholder syntax
//! compiles to itself, the literal parts always outnumber the placeholder
//! names by exactly one, compilation is deterministic, and a compiled
//! template can be reassembled into its raw text.

use vstd::prelude::*;

use crate::parts::brace_free;
use crate::parts::marker_idx;
use crate::parts::parts_ok;
use crate::parts::spec_split;
use crate::scan::close_idx;
use crate::ident::spec_is_identifier;
use crate::scan::distinct;
use crate::scan::names_ok;
use crate::scan::spec_generalize;
use crate::scan::spec_names;
use crate::scan::span_close;
use crate::step::spec_valid;
use crate::step::Step;

verus! {

/// A found closing brace lies inside the string, is a `}`, and nothing
/// before it is a brace.
proof fn lemma_close_bounds(u: Seq<char>)
    ensures
        close_idx(u) matches Some(k) ==> 0 <= k < u.len() && u[k] == '}',
    decreases u.len(),
{
    if u.len() > 0 && u[0] != '}' && u[0] != '{' {
        lemma_close_bounds(u.drop_first());
    }
}

/// A found marker lies inside the string and reads `{}`.
proof fn lemma_marker_bounds(g: Seq<char>)
    ensures
        marker_idx(g) matches Some(i) ==> 0 <= i && i + 2 <= g.len() && g[i] == '{' && g[i + 1]
            == '}',
    decreases g.len(),
{
    if g.len() >= 2 && !(g[0] == '{' && g[1] == '}') {
        lemma_marker_bounds(g.drop_first());
    }
}

/// The generalized form of a nonempty string is nonempty and keeps the
/// first character.
proof fn lemma_generalize_first(u: Seq<char>)
    requires
        u.len() > 0,
    ensures
        spec_generalize(u).len() > 0,
        spec_generalize(u)[0] == u[0],
{
    match span_close(u) {
        Some(k) => {
            assert(spec_generalize(u)[0] == '{');
        },
        None => {
            assert(spec_generalize(u)[0] == u[0]);
        },
    }
}

/// A string without braces holds no marker.
proof fn lemma_brace_free_no_marker(g: Seq<char>)
    requires
        brace_free(g),
    ensures
        marker_idx(g) is None,
    decreases g.len(),
{
    if g.len() >= 2 {
        assert(g[0] != '{');
        assert(brace_free(g.drop_first())) by {
            assert(forall|i: int|
                0 <= i < g.drop_first().len() ==> (#[trigger] g.drop_first()[i]) == g[i + 1]);
        }
        lemma_brace_free_no_marker(g.drop_first());
    }
}

/// Splitting after prepending one character that completes no marker:
/// the character lands on the front of the first part.
proof fn lemma_split_prepend(c: char, g: Seq<char>)
    requires
        !(c == '{' && g.len() > 0 && g[0] == '}'),
    ensures
        spec_split(seq![c] + g) == seq![seq![c] + spec_split(g)[0]] + spec_split(g).drop_first(),
        spec_split(seq![c] + g).len() == spec_split(g).len(),
{
    let h: Seq<char> = seq![c] + g;
    assert(h.drop_first() =~= g);
    lemma_marker_bounds(g);
    if g.len() == 0 {
        assert(spec_split(h) =~= seq![h]);
        assert(seq![c] + spec_split(g)[0] =~= h);
        assert(spec_split(h) =~= seq![seq![c] + spec_split(g)[0]] + spec_split(g).drop_first());
    } else {
        assert(!(h[0] == '{' && h[1] == '}'));
        match marker_idx(g) {
            None => {
                assert(marker_idx(h) is None);
                assert(seq![c] + spec_split(g)[0] =~= h);
                assert(spec_split(h) =~= seq![seq![c] + spec_split(g)[0]] + spec_split(
                    g,
                ).drop_first());
            },
            Some(i) => {
                assert(marker_idx(h) == Some(i + 1));
                assert(h.subrange(0, i + 1) =~= seq![c] + g.subrange(0, i));
                assert(h.skip(i + 3) =~= g.skip(i + 2));
                assert(spec_split(h) =~= seq![seq![c] + spec_split(g)[0]] + spec_split(
                    g,
                ).drop_first());
            },
        }
    }
}

/// Splitting a string that opens with the marker: the first part is empty
/// and the rest splits on its own.
proof fn lemma_split_marker_front(g: Seq<char>)
    ensures
        spec_split(seq!['{', '}'] + g) == seq![Seq::<char>::empty()] + spec_split(g),
{
    let h: Seq<char> = seq!['{', '}'] + g;
    assert(marker_idx(h) == Some(0int));
    assert(h.subrange(0, 0) =~= Seq::<char>::empty());
    assert(h.skip(2) =~= g);
    assert(spec_split(h) =~= seq![Seq::<char>::empty()] + spec_split(g));
}

/// A string with no placeholder syntax compiles to itself: it is valid,
/// its generalized form is the string itself, its one literal part is the
/// whole string, and it has no placeholder names.
pub proof fn lemma_no_placeholders(s: Seq<char>)
    requires
        brace_free(s),
    ensures
        spec_valid(s),
        spec_generalize(s) == s,
        spec_split(spec_generalize(s)) == seq![s],
        spec_names(s) == Seq::<Seq<char>>::empty(),
    decreases s.len(),
{
    if s.len() == 0 {
        assert(spec_generalize(s) =~= s);
        lemma_brace_free_no_marker(s);
        assert(spec_split(s) =~= seq![s]);
        assert(spec_names(s) =~= Seq::<Seq<char>>::empty());
    } else {
        assert(s[0] != '{');
        assert(span_close(s) is None);
        assert(brace_free(s.drop_first())) by {
            assert(forall|i: int|
                0 <= i < s.drop_first().len() ==> (#[trigger] s.drop_first()[i]) == s[i + 1]);
        }
        lemma_no_placeholders(s.drop_first());
        assert(spec_generalize(s) =~= seq![s[0]] + s.drop_first());
        assert(spec_generalize(s) =~= s);
        lemma_brace_free_no_marker(s);
        assert(spec_split(s) =~= seq![s]);
        assert(spec_names(s) =~= Seq::<Seq<char>>::empty());
    }
    assert(parts_ok(seq![s]));
    assert(names_ok(Seq::<Seq<char>>::empty()));
}

/// The literal parts always outnumber the placeholder names by exactly one,
/// whatever the template string.
pub proof fn lemma_parts_names_count(s: Seq<char>)
    ensures
        spec_split(spec_generalize(s)).len() == spec_names(s).len() + 1,
    decreases s.len(),
{
    if s.len() == 0 {
        assert(spec_split(spec_generalize(s)) =~= seq![Seq::<char>::empty()]);
    } else {
        match span_close(s) {
            Some(k) => {
                lemma_parts_names_count(s.skip(k + 2));
                lemma_split_marker_front(spec_generalize(s.skip(k + 2)));
            },
            None => {
                let c: char = s[0];
                let rest: Seq<char> = s.drop_first();
                lemma_parts_names_count(rest);
                if rest.len() > 0 {
                    lemma_generalize_first(rest);
                    if c == '{' && spec_generalize(rest)[0] == '}' {
                        assert(close_idx(rest) == Some(0int));
                        assert(span_close(s) is Some);
                    }
                }
                lemma_split_prepend(c, spec_generalize(rest));
            },
        }
    }
}

/// Compiling the same template string twice yields structurally identical
/// results: the generalized forms, the literal parts and the placeholder
/// names all agree.
pub proof fn lemma_compile_deterministic(a: Step, b: Step)
    requires
        a.wf(),
        b.wf(),
        a@.s == b@.s,
    ensures
        a@.generalized == b@.generalized,
        a@.parts == b@.parts,
        a@.names == b@.names,
{
}

/// A compiled template's literal parts outnumber its placeholder names by
/// exactly one.
pub proof fn lemma_step_counts(st: Step)
    requires
        st.wf(),
    ensures
        st@.parts.len() == st@.names.len() + 1,
{
    lemma_parts_names_count(st@.s);
}

/// A successful match binds exactly one captured substring to each
/// placeholder name, in the same order.
pub proof fn lemma_match_counts(st: Step, t: Seq<char>, caps: Seq<Seq<char>>)
    requires
        st.wf(),
        crate::matching::spec_match(st@.parts, t) == Some(caps),
    ensures
        caps.len() == st@.names.len(),
{
    crate::matching::lemma_match_sound(st@.parts, t, caps);
    lemma_parts_names_count(st@.s);
}

/// The literal parts interleaved with `{name}` placeholders, in order.
pub open spec fn reassemble(parts: Seq<Seq<char>>, names: Seq<Seq<char>>) -> Seq<char>
    decreases parts.len(),
{
    if parts.len() == 0 {
        Seq::empty()
    } else if names.len() == 0 {
        parts[0]
    } else {
        parts[0] + seq!['{'] + names[0] + seq!['}'] + reassemble(
            parts.drop_first(),
            names.drop_first(),
        )
    }
}

/// Round trip: reassembling the literal parts of a valid template,
/// interleaved with its placeholder names, reproduces the raw text.
pub proof fn lemma_round_trip(s: Seq<char>)
    requires
        spec_valid(s),
    ensures
        reassemble(spec_split(spec_generalize(s)), spec_names(s)) == s,
    decreases s.len(),
{
    let gp: Seq<Seq<char>> = spec_split(spec_generalize(s));
    let nn: Seq<Seq<char>> = spec_names(s);
    if s.len() == 0 {
        assert(spec_generalize(s) =~= Seq::<char>::empty());
        assert(gp =~= seq![Seq::<char>::empty()]);
        assert(reassemble(gp, nn) =~= s);
    } else {
        match span_close(s) {
            Some(k) => {
                let rest: Seq<char> = s.skip(k + 2);
                let name: Seq<char> = s.subrange(1, k + 1);
                let gpr: Seq<Seq<char>> = spec_split(spec_generalize(rest));
                let nnr: Seq<Seq<char>> = spec_names(rest);
                lemma_split_marker_front(spec_generalize(rest));
                assert(gp =~= seq![Seq::<char>::empty()] + gpr);
                assert(nn =~= seq![name] + nnr);
                assert(spec_valid(rest)) by {
                    assert forall|i: int| 0 <= i < nnr.len() implies spec_is_identifier(
                        #[trigger] nnr[i],
                    ) by {
                        assert(nnr[i] == nn[i + 1]);
                    }
                    assert forall|i: int, j: int| 0 <= i < j < nnr.len() implies nnr[i] != nnr[j] by {
                        assert(nnr[i] == nn[i + 1]);
                        assert(nnr[j] == nn[j + 1]);
                    }
                    assert(distinct(nnr));
                    assert forall|i: int| 0 < i < gpr.len() - 1 implies (#[trigger] gpr[i]).len()
                        > 0 by {
                        assert(gpr[i] == gp[i + 1]);
                    }
                    assert forall|i: int| 0 <= i < gpr.len() implies brace_free(
                        #[trigger] gpr[i],
                    ) by {
                        assert(gpr[i] == gp[i + 1]);
                    }
                    assert(parts_ok(gpr));
                }
                lemma_round_trip(rest);
                assert(gp.drop_first() =~= gpr);
                assert(nn.drop_first() =~= nnr);
                lemma_close_bounds(s.drop_first());
                assert(s.drop_first()[k] == '}');
                assert(s =~= seq!['{'] + name + seq!['}'] + rest);
                assert(reassemble(gp, nn) =~= s);
            },
            None => {
                let c: char = s[0];
                let rest: Seq<char> = s.drop_first();
                let gr: Seq<char> = spec_generalize(rest);
                let gpr: Seq<Seq<char>> = spec_split(gr);
                let nnr: Seq<Seq<char>> = spec_names(rest);
                assert(spec_generalize(s) == seq![c] + gr);
                if rest.len() > 0 {
                    lemma_generalize_first(rest);
                    if c == '{' && gr[0] == '}' {
                        assert(close_idx(rest) == Some(0int));
                        assert(span_close(s) is Some);
                    }
                }
                lemma_split_prepend(c, gr);
                assert(gp == seq![seq![c] + gpr[0]] + gpr.drop_first());
                assert(gp.len() == gpr.len());
                crate::parts::lemma_split_len(gr);
                assert(gp[0] == seq![c] + gpr[0]);
                assert(gp[0].len() > 0 && gp[0][0] == c);
                assert(brace_free(gp[0]));
                assert(c != '{' && c != '}');
                assert(nn =~= nnr);
                assert(spec_valid(rest)) by {
                    assert(names_ok(nnr));
                    assert forall|i: int| 0 < i < gpr.len() - 1 implies (#[trigger] gpr[i]).len()
                        > 0 by {
                        assert(gp[i] == gpr.drop_first()[i - 1]);
                        assert(gpr[i] == gp[i]);
                    }
                    assert forall|i: int| 0 <= i < gpr.len() implies brace_free(
                        #[trigger] gpr[i],
                    ) by {
                        if i == 0 {
                            assert(forall|q: int|
                                0 <= q < gpr[0].len() ==> (#[trigger] gpr[0][q]) == gp[0][q + 1]);
                        } else {
                            assert(gp[i] == gpr.drop_first()[i - 1]);
                            assert(gpr[i] == gp[i]);
                        }
                    }
                    assert(parts_ok(gpr));
                }
                lemma_round_trip(rest);
                if nn.len() == 0 {
                    assert(reassemble(gp, nn) == gp[0]);
                    assert(reassemble(gpr, nnr) == gpr[0]);
                    assert(reassemble(gp, nn) =~= seq![c] + reassemble(gpr, nnr));
                } else {
                    assert(gp.drop_first() =~= gpr.drop_first());
                    assert(nn.drop_first() =~= nnr.drop_first());
                    assert(reassemble(gp, nn) == gp[0] + seq!['{'] + nn[0] + seq!['}']
                        + reassemble(gpr.drop_first(), nnr.drop_first()));
                    assert(reassemble(gpr, nnr) == gpr[0] + seq!['{'] + nnr[0] + seq!['}']
                        + reassemble(gpr.drop_first(), nnr.drop_first()));
                    assert(reassemble(gp, nn) =~= seq![c] + reassemble(gpr, nnr));
                }
                assert(reassemble(gp, nn) =~= seq![c] + rest);
                assert(reassemble(gp, nn) =~= s);
            },
        }
    }
}

/// Round trip at the level of a compiled template: reassembling its literal
/// parts interleaved with its placeholder names reproduces its raw text.
pub proof fn lemma_step_round_trip(st: Step)
    requires
        st.wf(),
    ensures
        reassemble(st@.parts, st@.names) == st@.s,
{
    lemma_round_trip(st@.s);
}

} // verus!
